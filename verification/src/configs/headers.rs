//! Headers that every response gets, and how settings change them.

use vstd::prelude::*;

use crate::supports::version::VERSION;
use crate::table::{
    lemma_listed_insert, lemma_listed_remove, lemma_to_map_keys, listed, pairs_of, Table,
};
use crate::text::{
    eq_ignore_case, lower, lowered, same_letters, split, split_at_char, trim, trimmed,
};

verus! {

/// How much the `Server` header tells.
#[derive(Debug, Clone, Copy, PartialEq, Eq, Structural)]
pub enum ServerTokens {
    /// Name, version, operating system and architecture.
    Full,
    /// Name, version and operating system.
    Os,
    /// Name and the first two parts of the version.
    Minor,
    /// Name and the first part of the version.
    Major,
    /// Name and version.
    Min,
    /// The name alone.
    Prod,
}

/// The setting that a word stands for. An unknown word stands for `Full`.
pub open spec fn tokens_in(value: Seq<char>) -> ServerTokens {
    let w = lower(trim(value));
    if w == "os"@ {
        ServerTokens::Os
    } else if w == "minor"@ {
        ServerTokens::Minor
    } else if w == "major"@ {
        ServerTokens::Major
    } else if w == "min"@ {
        ServerTokens::Min
    } else if w == "prod"@ || w == "productonly"@ {
        ServerTokens::Prod
    } else {
        ServerTokens::Full
    }
}

/// A part of the version, or `0` where there is none.
pub open spec fn version_part(i: int) -> Seq<char> {
    let p = split(VERSION@, '.');
    if i < p.len() {
        p[i]
    } else {
        "0"@
    }
}

/// The value of the `Server` header.
pub open spec fn server_header(tokens: ServerTokens, os: Seq<char>, arch: Seq<char>) -> Seq<char> {
    match tokens {
        ServerTokens::Full => "cashttpd/"@ + VERSION@ + " ("@ + os + "; "@ + arch + ")"@,
        ServerTokens::Os => "cashttpd/"@ + VERSION@ + " ("@ + os + ")"@,
        ServerTokens::Minor => "cashttpd/"@ + version_part(0) + "."@ + version_part(1),
        ServerTokens::Major => "cashttpd/"@ + version_part(0),
        ServerTokens::Min => "cashttpd/"@ + VERSION@,
        ServerTokens::Prod => "cashttpd"@,
    }
}

impl ServerTokens {
    /// The setting that a word stands for, whatever its case. An unknown word
    /// stands for `Full`.
    pub fn parse(value: &str) -> (r: ServerTokens)
        ensures
            r == tokens_in(value@),
    {
        let t = trimmed(value);
        let w = lowered(t.as_str());
        if w.as_str().eq("os") {
            ServerTokens::Os
        } else if w.as_str().eq("minor") {
            ServerTokens::Minor
        } else if w.as_str().eq("major") {
            ServerTokens::Major
        } else if w.as_str().eq("min") {
            ServerTokens::Min
        } else if w.as_str().eq("prod") || w.as_str().eq("productonly") {
            ServerTokens::Prod
        } else {
            ServerTokens::Full
        }
    }

    /// The value of the `Server` header on an operating system and an
    /// architecture.
    pub fn header_value(self, os: &str, arch: &str) -> (r: String)
        ensures
            r@ == server_header(self, os@, arch@),
    {
        if self == ServerTokens::Prod {
            return "cashttpd".to_owned();
        }
        let parts = split_at_char(VERSION, '.');
        let n: usize = parts.len();
        assert(parts.deep_view().len() > 0);
        let mut out = "cashttpd/".to_owned();
        match self {
            ServerTokens::Full => {
                out.append(VERSION);
                out.append(" (");
                out.append(os);
                out.append("; ");
                out.append(arch);
                out.append(")");
            },
            ServerTokens::Os => {
                out.append(VERSION);
                out.append(" (");
                out.append(os);
                out.append(")");
            },
            ServerTokens::Minor => {
                assert(parts.deep_view()[0] == parts@[0]@);
                out.append(parts[0].as_str());
                out.append(".");
                if n > 1 {
                    assert(parts.deep_view()[1] == parts@[1]@);
                    out.append(parts[1].as_str());
                } else {
                    out.append("0");
                }
            },
            ServerTokens::Major => {
                assert(parts.deep_view()[0] == parts@[0]@);
                out.append(parts[0].as_str());
            },
            _ => {
                out.append(VERSION);
            },
        }
        out
    }
}

/// The headers that every response gets unless settings say otherwise. The one
/// on transport security stands only over TLS.
pub open spec fn default_headers(tls: bool, server: Seq<char>) -> Map<Seq<char>, Seq<char>> {
    let m = Map::<Seq<char>, Seq<char>>::empty().insert("Server"@, server).insert(
        "X-Content-Type-Options"@,
        "nosniff"@,
    ).insert("X-Frame-Options"@, "SAMEORIGIN"@).insert(
        "Referrer-Policy"@,
        "no-referrer-when-downgrade"@,
    );
    if tls {
        m.insert("Strict-Transport-Security"@, "max-age=31536000; includeSubDomains"@)
    } else {
        m
    }
}

/// The headers that every response gets unless settings say otherwise.
pub fn builtin_security_headers(
    tls_enabled: bool,
    server_tokens: ServerTokens,
    os: &str,
    arch: &str,
) -> (r: Table<String>)
    ensures
        r@ == default_headers(tls_enabled, server_header(server_tokens, os@, arch@)),
{
    let mut m: Table<String> = Table::new();
    m.insert("Server", server_tokens.header_value(os, arch));
    m.insert("X-Content-Type-Options", "nosniff".to_owned());
    m.insert("X-Frame-Options", "SAMEORIGIN".to_owned());
    m.insert("Referrer-Policy", "no-referrer-when-downgrade".to_owned());
    if tls_enabled {
        m.insert("Strict-Transport-Security", "max-age=31536000; includeSubDomains".to_owned());
    }
    m
}

/// The headers for other origins unless settings say otherwise.
pub open spec fn default_cors() -> Map<Seq<char>, Seq<char>> {
    Map::<Seq<char>, Seq<char>>::empty().insert("Access-Control-Allow-Origin"@, "*"@)
}

/// The headers for other origins unless settings say otherwise.
pub fn builtin_cors_headers() -> (r: Table<String>)
    ensures
        r@ == default_cors(),
{
    let mut m: Table<String> = Table::new();
    m.insert("Access-Control-Allow-Origin", "*".to_owned());
    m
}

/// The first of the keys of a list, from a place on, that is `name` but for its
/// case; or `name` itself.
pub open spec fn spelled<W>(p: Seq<(Seq<char>, W)>, i: int, name: Seq<char>) -> Seq<char>
    decreases p.len() - i,
{
    if i < 0 || i >= p.len() {
        name
    } else if same_letters(p[i].0, name) {
        p[i].0
    } else {
        spelled(p, i + 1, name)
    }
}

/// How a header map spells a name: as the first of its keys that is the name but
/// for its case, or as the name itself.
pub open spec fn spelling(m: Map<Seq<char>, Seq<char>>, name: Seq<char>) -> Seq<char> {
    spelled(pairs_of(m), 0, name)
}

/// A header map after one override: a value that is not empty sets the header,
/// and anything else takes it away.
pub open spec fn overridden(
    m: Map<Seq<char>, Seq<char>>,
    name: Seq<char>,
    value: Option<Seq<char>>,
) -> Map<Seq<char>, Seq<char>> {
    match value {
        Some(v) => if v.len() > 0 {
            m.insert(spelling(m, name), v)
        } else {
            m.remove(spelling(m, name))
        },
        None => m.remove(spelling(m, name)),
    }
}

/// A header map after overrides, one after the other.
pub open spec fn after_overrides(
    m: Map<Seq<char>, Seq<char>>,
    p: Seq<(Seq<char>, Option<Seq<char>>)>,
) -> Map<Seq<char>, Seq<char>>
    decreases p.len(),
{
    if p.len() == 0 {
        m
    } else {
        overridden(after_overrides(m, p.drop_last()), p.last().0, p.last().1)
    }
}

/// A header map after a layer of overrides, in the order of their names.
pub open spec fn with_overrides(
    m: Map<Seq<char>, Seq<char>>,
    o: Map<Seq<char>, Option<Seq<char>>>,
) -> Map<Seq<char>, Seq<char>> {
    after_overrides(m, pairs_of(o))
}

/// How a header table spells a name.
fn spelling_in(base: &Table<String>, name: &str) -> (r: String)
    ensures
        r@ == spelling(base@, name@),
{
    let n: usize = base.len();
    let ghost p = base.pairs();
    let mut i: usize = 0;
    while i < n
        invariant
            i <= n,
            n == p.len(),
            p == base.pairs(),
            p == pairs_of(base@),
            spelling(base@, name@) == spelled(p, i as int, name@),
        decreases n - i,
    {
        let k = base.key_at(i);
        if eq_ignore_case(k.as_str(), name) {
            return k.clone();
        }
        i = i + 1;
    }
    name.to_owned()
}

/// Applies a layer of overrides to a header table.
pub fn merge_header_overrides(base: &mut Table<String>, overrides: &Table<Option<String>>)
    ensures
        final(base)@ == with_overrides(old(base)@, overrides@),
{
    let n: usize = overrides.len();
    let ghost p = overrides.pairs();
    let ghost start = base@;
    let mut i: usize = 0;
    assert(p.take(0) =~= Seq::empty());
    while i < n
        invariant
            i <= n,
            n == p.len(),
            p == overrides.pairs(),
            base@ == after_overrides(start, p.take(i as int)),
        decreases n - i,
    {
        assert(p.take(i + 1).drop_last() =~= p.take(i as int));
        let name = overrides.key_at(i);
        let existing = spelling_in(base, name.as_str());
        match overrides.value_at(i) {
            Some(v) => {
                if v.as_str().is_empty() {
                    base.remove(existing.as_str());
                } else {
                    base.insert(existing.as_str(), v.clone());
                }
            },
            None => {
                base.remove(existing.as_str());
            },
        }
        i = i + 1;
    }
    assert(p.take(n as int) =~= p);
}

/// The headers for other origins after what two layers say of them, the second
/// on top of the first; none where the last word is that there are none.
pub open spec fn cors_of(
    global: Option<crate::configs::CorsLayerView>,
    project: Option<crate::configs::CorsLayerView>,
) -> Option<Map<Seq<char>, Seq<char>>> {
    let off = match project {
        Some(p) => p is Disabled,
        None => match global {
            Some(g) => g is Disabled,
            None => false,
        },
    };
    if off {
        None
    } else {
        Some(cors_layered(cors_layered(default_cors(), global), project))
    }
}

/// Headers for other origins after what one layer says of them.
pub open spec fn cors_layered(
    m: Map<Seq<char>, Seq<char>>,
    layer: Option<crate::configs::CorsLayerView>,
) -> Map<Seq<char>, Seq<char>> {
    match layer {
        Some(crate::configs::CorsLayerView::Headers(o)) => with_overrides(m, o),
        _ => m,
    }
}

/// The headers for other origins after what two layers say of them.
pub fn resolve_cors(
    global: &Option<crate::configs::CorsLayer>,
    project: &Option<crate::configs::CorsLayer>,
) -> (r: Option<Table<String>>)
    ensures
        match r {
            Some(t) => cors_of(global.deep_view(), project.deep_view()) == Some(t@),
            None => cors_of(global.deep_view(), project.deep_view()) is None,
        },
{
    let off = match project {
        Some(crate::configs::CorsLayer::Disabled) => true,
        Some(_) => false,
        None => match global {
            Some(crate::configs::CorsLayer::Disabled) => true,
            _ => false,
        },
    };
    if off {
        return None;
    }
    let mut headers = builtin_cors_headers();
    if let Some(crate::configs::CorsLayer::Headers(o)) = global {
        merge_header_overrides(&mut headers, o);
    }
    if let Some(crate::configs::CorsLayer::Headers(o)) = project {
        merge_header_overrides(&mut headers, o);
    }
    Some(headers)
}

// ---------------------------------------------------------------------------
// Laws
// ---------------------------------------------------------------------------

/// Whether no name stands in a header map in two spellings.
pub open spec fn distinct_names(m: Map<Seq<char>, Seq<char>>) -> bool {
    forall|a: Seq<char>, b: Seq<char>|
        #![trigger m.contains_key(a), m.contains_key(b)]
        m.contains_key(a) && m.contains_key(b) && same_letters(a, b) ==> a == b
}

/// How a name is spelled: like a key of the map, or in a way that none of the
/// keys has.
proof fn lemma_spelled(m: Map<Seq<char>, Seq<char>>, i: int, name: Seq<char>)
    requires
        listed(m),
        0 <= i <= pairs_of(m).len(),
        forall|j: int| 0 <= j < i ==> !same_letters(#[trigger] pairs_of(m)[j].0, name),
    ensures
        same_letters(spelled(pairs_of(m), i, name), name),
        m.contains_key(spelled(pairs_of(m), i, name)) || (spelled(pairs_of(m), i, name) == name
            && forall|k: Seq<char>| #[trigger] m.contains_key(k) ==> !same_letters(k, name)),
    decreases pairs_of(m).len() - i,
{
    let p = pairs_of(m);
    if i < p.len() {
        if same_letters(p[i].0, name) {
            lemma_to_map_keys(p, p[i].0);
        } else {
            lemma_spelled(m, i + 1, name);
        }
    } else {
        assert forall|k: Seq<char>| #[trigger] m.contains_key(k) implies !same_letters(k, name) by {
            lemma_to_map_keys(p, k);
        }
    }
}

/// One override decides on its header, in whatever case the two are written: a
/// value that is not empty is what the header has afterwards, and otherwise no
/// spelling of it is left.
pub proof fn override_decides(
    m: Map<Seq<char>, Seq<char>>,
    name: Seq<char>,
    value: Option<Seq<char>>,
)
    requires
        listed(m),
        distinct_names(m),
    ensures
        listed(overridden(m, name, value)),
        distinct_names(overridden(m, name, value)),
        (value matches Some(v) && v.len() > 0) ==> (exists|k: Seq<char>| #[trigger]
            overridden(m, name, value).contains_key(k) && same_letters(k, name) && overridden(
                m,
                name,
                value,
            )[k] == value->0),
        (value is None || (value->0).len() == 0) ==> (forall|k: Seq<char>| #[trigger]
            overridden(m, name, value).contains_key(k) ==> !same_letters(k, name)),
{
    lemma_spelled(m, 0, name);
    let k = spelling(m, name);
    let r = overridden(m, name, value);
    if value is Some && (value->0).len() > 0 {
        lemma_listed_insert(m, k, value->0);
        assert(r.contains_key(k));
    } else {
        lemma_listed_remove(m, k);
    }
}

/// One override leaves every other header as it was.
pub proof fn override_leaves_others(
    m: Map<Seq<char>, Seq<char>>,
    name: Seq<char>,
    value: Option<Seq<char>>,
    other: Seq<char>,
)
    requires
        listed(m),
        !same_letters(other, name),
    ensures
        overridden(m, name, value).contains_key(other) == m.contains_key(other),
        m.contains_key(other) ==> overridden(m, name, value)[other] == m[other],
{
    lemma_spelled(m, 0, name);
}

/// However many overrides are applied, no header ever stands in two spellings.
pub proof fn overrides_keep_names_distinct(
    m: Map<Seq<char>, Seq<char>>,
    p: Seq<(Seq<char>, Option<Seq<char>>)>,
)
    requires
        listed(m),
        distinct_names(m),
    ensures
        listed(after_overrides(m, p)),
        distinct_names(after_overrides(m, p)),
    decreases p.len(),
{
    if p.len() > 0 {
        overrides_keep_names_distinct(m, p.drop_last());
        override_decides(after_overrides(m, p.drop_last()), p.last().0, p.last().1);
    }
}

/// Whether no two overrides are about one header.
pub open spec fn distinct_overrides(p: Seq<(Seq<char>, Option<Seq<char>>)>) -> bool {
    forall|i: int, j: int|
        0 <= i < j < p.len() ==> !same_letters(#[trigger] p[i].0, #[trigger] p[j].0)
}

/// Whether an override has a value, and not an empty one.
pub open spec fn sets(value: Option<Seq<char>>) -> bool {
    value is Some && (value->0).len() > 0
}

proof fn lemma_same_spelling(
    m: Map<Seq<char>, Seq<char>>,
    r: Map<Seq<char>, Seq<char>>,
    name: Seq<char>,
)
    requires
        listed(m),
        listed(r),
        distinct_names(m),
        distinct_names(r),
        forall|k: Seq<char>|
            same_letters(k, name) ==> (#[trigger] m.contains_key(k) <==> r.contains_key(k)),
    ensures
        spelling(m, name) == spelling(r, name),
{
    lemma_spelled(m, 0, name);
    lemma_spelled(r, 0, name);
    let a = spelling(m, name);
    let b = spelling(r, name);
    if m.contains_key(a) {
        assert(r.contains_key(a));
        if r.contains_key(b) {
            assert(m.contains_key(b));
        }
    } else if r.contains_key(b) {
        assert(m.contains_key(b));
    }
}

/// Headers that no override names stay as they were, however many overrides there
/// are.
pub proof fn overrides_leave_others(
    m: Map<Seq<char>, Seq<char>>,
    p: Seq<(Seq<char>, Option<Seq<char>>)>,
    other: Seq<char>,
)
    requires
        listed(m),
        distinct_names(m),
        forall|i: int| 0 <= i < p.len() ==> !same_letters(other, #[trigger] p[i].0),
    ensures
        after_overrides(m, p).contains_key(other) == m.contains_key(other),
        m.contains_key(other) ==> after_overrides(m, p)[other] == m[other],
    decreases p.len(),
{
    if p.len() > 0 {
        let q = p.drop_last();
        assert forall|i: int| 0 <= i < q.len() implies !same_letters(other, #[trigger] q[i].0) by {
            assert(q[i] == p[i]);
        }
        overrides_keep_names_distinct(m, q);
        overrides_leave_others(m, q, other);
        assert(!same_letters(other, p[p.len() - 1].0));
        override_leaves_others(after_overrides(m, q), p.last().0, p.last().1, other);
    }
}

/// However many overrides there are, each of a header of its own: one with a value
/// gives its header that value, under one name, which is spelled as it was if it
/// was there; and of one without a value no spelling is left.
pub proof fn each_override_decides(
    m: Map<Seq<char>, Seq<char>>,
    p: Seq<(Seq<char>, Option<Seq<char>>)>,
    i: int,
)
    requires
        listed(m),
        distinct_names(m),
        distinct_overrides(p),
        0 <= i < p.len(),
    ensures
        ({
            let r = after_overrides(m, p);
            let k = spelling(m, p[i].0);
            if sets(p[i].1) {
                r.contains_key(k) && r[k] == p[i].1->0 && forall|x: Seq<char>| #[trigger]
                    r.contains_key(x) && same_letters(x, p[i].0) ==> x == k
            } else {
                forall|x: Seq<char>| #[trigger] r.contains_key(x) ==> !same_letters(x, p[i].0)
            }
        }),
    decreases p.len(),
{
    let q = p.drop_last();
    let b = after_overrides(m, q);
    let r = after_overrides(m, p);
    let name = p[i].0;
    let k = spelling(m, name);
    overrides_keep_names_distinct(m, q);
    overrides_keep_names_distinct(m, p);
    lemma_spelled(m, 0, name);
    if i < p.len() - 1 {
        assert forall|x: int, y: int| 0 <= x < y < q.len() implies !same_letters(
            #[trigger] q[x].0,
            #[trigger] q[y].0,
        ) by {
            assert(q[x] == p[x] && q[y] == p[y]);
        }
        assert(q[i] == p[i]);
        each_override_decides(m, q, i);
        assert(!same_letters(p[i].0, p[p.len() - 1].0));
        assert forall|x: Seq<char>| same_letters(x, name) implies #[trigger] r.contains_key(x)
            == b.contains_key(x) && (b.contains_key(x) ==> r[x] == b[x]) by {
            override_leaves_others(b, p.last().0, p.last().1, x);
        }
        if sets(p[i].1) {
            assert(same_letters(k, name));
            assert(r.contains_key(k) == b.contains_key(k));
            assert forall|x: Seq<char>| #[trigger] r.contains_key(x) && same_letters(
                x,
                name,
            ) implies x == k by {
                assert(b.contains_key(x));
            }
        } else {
            assert forall|x: Seq<char>| #[trigger] r.contains_key(x) implies !same_letters(
                x,
                name,
            ) by {
                if same_letters(x, name) {
                    assert(b.contains_key(x));
                }
            }
        }
    } else {
        assert forall|x: Seq<char>| same_letters(x, name) implies (#[trigger] m.contains_key(x)
            <==> b.contains_key(x)) by {
            assert forall|j: int| 0 <= j < q.len() implies !same_letters(x, #[trigger] q[j].0) by {
                assert(q[j] == p[j]);
                assert(!same_letters(p[j].0, p[i].0));
            }
            overrides_leave_others(m, q, x);
        }
        lemma_same_spelling(m, b, name);
        override_decides(b, name, p[i].1);
    }
}

proof fn lemma_merged_again(
    r: Map<Seq<char>, Seq<char>>,
    p: Seq<(Seq<char>, Option<Seq<char>>)>,
)
    requires
        forall|i: int| 0 <= i < p.len() ==> overridden(r, (#[trigger] p[i]).0, p[i].1) == r,
    ensures
        after_overrides(r, p) == r,
    decreases p.len(),
{
    if p.len() > 0 {
        let q = p.drop_last();
        assert forall|i: int| 0 <= i < q.len() implies overridden(r, (#[trigger] q[i]).0, q[i].1)
            == r by {
            assert(q[i] == p[i]);
        }
        lemma_merged_again(r, q);
        assert(overridden(r, p[p.len() - 1].0, p[p.len() - 1].1) == r);
    }
}

/// Applying the same overrides once more changes nothing.
pub proof fn overrides_apply_once(
    m: Map<Seq<char>, Seq<char>>,
    p: Seq<(Seq<char>, Option<Seq<char>>)>,
)
    requires
        listed(m),
        distinct_names(m),
        distinct_overrides(p),
    ensures
        after_overrides(after_overrides(m, p), p) == after_overrides(m, p),
{
    let r = after_overrides(m, p);
    overrides_keep_names_distinct(m, p);
    assert forall|i: int| 0 <= i < p.len() implies overridden(r, (#[trigger] p[i]).0, p[i].1)
        == r by {
        let name = p[i].0;
        let k = spelling(m, name);
        each_override_decides(m, p, i);
        lemma_spelled(m, 0, name);
        lemma_spelled(r, 0, name);
        if sets(p[i].1) {
            assert(r.contains_key(k) && same_letters(k, name));
            assert(spelling(r, name) == k);
            assert(r.insert(k, p[i].1->0) =~= r);
        } else {
            assert(!r.contains_key(spelling(r, name)));
            assert(r.remove(spelling(r, name)) =~= r);
        }
    }
    lemma_merged_again(r, p);
}

} // verus!
