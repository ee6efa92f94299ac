//! Pages that the server writes itself.

use vstd::prelude::*;
use vstd::utf8::encode_utf8;

use crate::digits::{decimal, decimal_of};
use crate::servers::http::{
    bytes_of, one_field, Body, BodyView, Request, RequestView, Response, ResponseView,
};
use crate::supports::format::{size, size_text};
use crate::text::{
    comes_before, has_prefix, lemma_less_irreflexive, lemma_less_total, lemma_less_transitive,
    less, replace, replaced, starts_with, trim_end, trim_end_of, Class,
};

verus! {

// ---------------------------------------------------------------------------
// Escaping
// ---------------------------------------------------------------------------

/// Text that stands for itself in HTML.
pub open spec fn escaped(s: Seq<char>) -> Seq<char> {
    replace(
        replace(replace(replace(s, '&', "&amp;"@), '<', "&lt;"@), '>', "&gt;"@),
        '"',
        "&quot;"@,
    )
}

/// Text that stands for itself in HTML.
pub fn html_escape(s: &str) -> (r: String)
    ensures
        r@ == escaped(s@),
{
    let a = replaced(s, '&', "&amp;");
    let b = replaced(a.as_str(), '<', "&lt;");
    let c = replaced(b.as_str(), '>', "&gt;");
    replaced(c.as_str(), '"', "&quot;")
}

/// A character that stands neither in the text, unless it is the one that is
/// replaced, nor in its replacement, does not stand in the result.
proof fn lemma_replace_lacks(s: Seq<char>, c: char, by: Seq<char>, d: char)
    requires
        d == c || !s.contains(d),
        !by.contains(d),
    ensures
        !replace(s, c, by).contains(d),
    decreases s.len(),
{
    if s.len() > 0 {
        let head = s.drop_last();
        assert forall|i: int| 0 <= i < head.len() implies head[i] != d || d == c by {
            assert(head[i] == s[i]);
        }
        lemma_replace_lacks(head, c, by, d);
        let tail = if s.last() == c {
            by
        } else {
            seq![s.last()]
        };
        let whole = replace(s, c, by);
        assert forall|i: int| 0 <= i < whole.len() implies whole[i] != d by {
            let front = replace(head, c, by);
            if i < front.len() {
                assert(whole[i] == front[i]);
            } else {
                assert(whole[i] == tail[i - front.len()]);
                assert(s[s.len() - 1] == s.last());
            }
        }
    }
}

/// Escaped text opens no tag and ends no attribute, whatever it was.
pub proof fn escaped_text_is_no_markup(s: Seq<char>)
    ensures
        !escaped(s).contains('<'),
        !escaped(s).contains('>'),
        !escaped(s).contains('"'),
{
    reveal_strlit("&amp;");
    reveal_strlit("&lt;");
    reveal_strlit("&gt;");
    reveal_strlit("&quot;");
    let a = replace(s, '&', "&amp;"@);
    let b = replace(a, '<', "&lt;"@);
    let c = replace(b, '>', "&gt;"@);
    lemma_replace_lacks(a, '<', "&lt;"@, '<');
    lemma_replace_lacks(b, '>', "&gt;"@, '<');
    lemma_replace_lacks(c, '"', "&quot;"@, '<');
    lemma_replace_lacks(b, '>', "&gt;"@, '>');
    lemma_replace_lacks(c, '"', "&quot;"@, '>');
    lemma_replace_lacks(c, '"', "&quot;"@, '"');
}

// ---------------------------------------------------------------------------
// Errors
// ---------------------------------------------------------------------------

/// The words after a status.
pub open spec fn reason(status: u16) -> Seq<char> {
    if status == 400 {
        "Bad Request"@
    } else if status == 403 {
        "Forbidden"@
    } else if status == 404 {
        "Not Found"@
    } else if status == 405 {
        "Method Not Allowed"@
    } else if status == 416 {
        "Range Not Satisfiable"@
    } else if status == 500 {
        "Internal Server Error"@
    } else if status == 503 {
        "Service Unavailable"@
    } else {
        "Error"@
    }
}

/// The words after a status.
pub fn reason_phrase(status: u16) -> (r: &'static str)
    ensures
        r@ == reason(status),
{
    if status == 400 {
        "Bad Request"
    } else if status == 403 {
        "Forbidden"
    } else if status == 404 {
        "Not Found"
    } else if status == 405 {
        "Method Not Allowed"
    } else if status == 416 {
        "Range Not Satisfiable"
    } else if status == 500 {
        "Internal Server Error"
    } else if status == 503 {
        "Service Unavailable"
    } else {
        "Error"
    }
}

/// What a page says in debug mode, with what went wrong where that is known.
pub open spec fn debug_note(debug: bool, trace: Option<Seq<char>>) -> Seq<char> {
    if debug {
        match trace {
            Some(t) => NOTE_TRACE@ + escaped(t) + "</pre>"@,
            None => NOTE_DEBUG@,
        }
    } else {
        ""@
    }
}

/// What comes before the detail of a failure.
pub const NOTE_TRACE: &'static str =
    "<p class=\"detail\">Debug mode is on — server-side failure detail:</p><pre class=\"detail\">";

/// What a page says where there is no detail.
pub const NOTE_DEBUG: &'static str = "<p class=\"detail\">Debug mode is on.</p>";

/// How every page starts, up to its title.
pub const PAGE_START: &'static str =
    "<!doctype html><html><head><meta charset=\"utf-8\"><meta name=\"viewport\" content=\"width=device-width, initial-scale=1\"><title>";

/// What stands between the title and the body of an error page.
pub const ERROR_STYLE: &'static str =
    "</title><style>body{font-family:system-ui,sans-serif;margin:0;padding:2rem 1.25rem;background:#0f172a;color:#e2e8f0;min-height:100vh;box-sizing:border-box}.card{max-width:32rem;margin:2rem auto;background:#1e293b;border-radius:.75rem;padding:1.5rem}h1{font-size:2.5rem;margin:0 0 .25rem}.reason{font-size:1.1rem;color:#94a3b8;margin:0 0 1rem}code{background:#334155;padding:.15rem .4rem;border-radius:.25rem}.detail{color:#fbbf24}pre.detail{white-space:pre-wrap;word-break:break-word;overflow-x:auto}</style></head><body><div class=\"card\"><h1>";

/// The page for an error.
pub open spec fn error_html(
    status: u16,
    q: RequestView,
    debug: bool,
    trace: Option<Seq<char>>,
) -> Seq<char> {
    PAGE_START@ + decimal(status as int) + " "@ + reason(status) + ERROR_STYLE@ + decimal(
        status as int,
    ) + "</h1><p class=\"reason\">"@ + reason(status) + "</p><p><code>"@ + escaped(q.method) + " "@
        + escaped(q.path) + "</code></p>"@ + debug_note(debug, trace) + "</div></body></html>"@
}

/// The page for an error, with what went wrong where that is known. It is told
/// in debug mode alone.
pub fn error_page_with_trace(
    status: u16,
    request: &Request,
    debug: bool,
    trace: Option<&str>,
) -> (r: String)
    ensures
        r@ == error_html(status, request@, debug, trace.deep_view()),
{
    let code = decimal_of(status as u64);
    let mut out = PAGE_START.to_owned();
    out.append(code.as_str());
    out.append(" ");
    out.append(reason_phrase(status));
    out.append(ERROR_STYLE);
    out.append(code.as_str());
    out.append("</h1><p class=\"reason\">");
    out.append(reason_phrase(status));
    out.append("</p><p><code>");
    out.append(html_escape(request.method.as_str()).as_str());
    out.append(" ");
    out.append(html_escape(request.path.as_str()).as_str());
    out.append("</code></p>");
    let mut note = "".to_owned();
    if debug {
        match trace {
            Some(t) => {
                note = NOTE_TRACE.to_owned();
                note.append(html_escape(t).as_str());
                note.append("</pre>");
            },
            None => {
                note = NOTE_DEBUG.to_owned();
            },
        }
    }
    out.append(note.as_str());
    out.append("</div></body></html>");
    out
}

/// The page for an error.
pub fn error_page(status: u16, request: &Request, debug: bool) -> (r: String)
    ensures
        r@ == error_html(status, request@, debug, None),
{
    error_page_with_trace(status, request, debug, None)
}

/// Outside debug mode a page tells nothing of what went wrong.
pub proof fn traces_stay_inside(status: u16, q: RequestView, trace: Option<Seq<char>>)
    ensures
        error_html(status, q, false, trace) == error_html(status, q, false, None),
{
}

/// The media type of the pages that the server writes.
pub const HTML: &'static str = "text/html; charset=utf-8";

/// A response with a page.
pub open spec fn page_response(
    status: u16,
    reason: Seq<char>,
    html: Seq<char>,
    head_only: bool,
) -> ResponseView {
    ResponseView {
        status,
        reason,
        body: BodyView::Bytes(encode_utf8(html)),
        head_only,
        headers: seq![("Content-Type"@, HTML@)],
    }
}

/// A response with a page.
pub fn respond_page(status: u16, reason: &str, html: &str, head_only: bool) -> (r: Response)
    ensures
        r@ == page_response(status, reason@, html@, head_only),
{
    Response {
        status,
        reason: reason.to_owned(),
        body: Body::Bytes(bytes_of(html)),
        head_only,
        headers: one_field("Content-Type", HTML),
    }
}

/// The response with the page for an error.
pub open spec fn error_response(status: u16, q: RequestView, debug: bool) -> ResponseView {
    page_response(status, reason(status), error_html(status, q, debug, None), q.method == "HEAD"@)
}

/// The response with the page for an error.
pub fn respond_error(status: u16, request: &Request, debug: bool) -> (r: Response)
    ensures
        r@ == error_response(status, request@, debug),
{
    let page = error_page(status, request, debug);
    respond_page(status, reason_phrase(status), page.as_str(), request.method.as_str().eq("HEAD"))
}

// ---------------------------------------------------------------------------
// Directories
// ---------------------------------------------------------------------------

/// Something in a directory.
#[derive(Debug)]
pub struct DirEntry {
    /// Its name.
    pub name: String,
    /// Whether it is a directory.
    pub is_dir: bool,
    /// Its size, where that is known.
    pub size: Option<u64>,
}

/// Something in a directory.
pub struct DirEntryView {
    pub name: Seq<char>,
    pub is_dir: bool,
    pub size: Option<u64>,
}

impl DeepView for DirEntry {
    type V = DirEntryView;

    open spec fn deep_view(&self) -> DirEntryView {
        DirEntryView { name: self.name@, is_dir: self.is_dir, size: self.size }
    }
}

/// A line of a listing: a label, and a size for a file.
pub open spec fn listing_line(e: DirEntryView) -> (Seq<char>, Option<u64>) {
    if e.is_dir {
        (e.name + "/"@, None)
    } else {
        (e.name, e.size)
    }
}

/// Lines in order, with one more at its place: after those that do not come
/// after it.
pub open spec fn placed(
    list: Seq<(Seq<char>, Option<u64>)>,
    e: (Seq<char>, Option<u64>),
) -> Seq<(Seq<char>, Option<u64>)>
    decreases list.len(),
{
    if list.len() == 0 || !less(e.0, list.last().0) {
        list.push(e)
    } else {
        placed(list.drop_last(), e).push(list.last())
    }
}

/// The lines of a listing, by their labels. What configures the server is left
/// out.
pub open spec fn listing(entries: Seq<DirEntryView>) -> Seq<(Seq<char>, Option<u64>)>
    decreases entries.len(),
{
    if entries.len() == 0 {
        Seq::empty()
    } else {
        let rest = listing(entries.drop_last());
        if starts_with(entries.last().name, ".ht"@) {
            rest
        } else {
            placed(rest, listing_line(entries.last()))
        }
    }
}

proof fn lemma_placed(
    list: Seq<(Seq<char>, Option<u64>)>,
    e: (Seq<char>, Option<u64>),
    at: int,
)
    requires
        0 <= at <= list.len(),
        at == 0 || !less(e.0, list[at - 1].0),
        forall|i: int| at <= i < list.len() ==> less(e.0, #[trigger] list[i].0),
    ensures
        placed(list, e) == list.insert(at, e),
    decreases list.len(),
{
    if at < list.len() {
        assert(less(e.0, list[list.len() - 1].0));
        let head = list.drop_last();
        assert forall|i: int| at <= i < head.len() implies less(e.0, #[trigger] head[i].0) by {
            assert(head[i] == list[i]);
        }
        lemma_placed(head, e, at);
        assert(list.insert(at, e) =~= head.insert(at, e).push(list.last()));
    } else {
        assert(list.insert(at, e) =~= list.push(e));
    }
}

fn place(list: &mut Vec<(String, Option<u64>)>, name: String, size: Option<u64>)
    ensures
        final(list).deep_view() == placed(old(list).deep_view(), (name@, size)),
{
    let ghost all = list.deep_view();
    let ghost e = (name@, size);
    let n: usize = list.len();
    let mut at: usize = n;
    while at > 0 && comes_before(name.as_str(), list[at - 1].0.as_str())
        invariant
            at <= n,
            n == list@.len(),
            all == list.deep_view(),
            forall|i: int| at <= i < n ==> less(name@, #[trigger] all[i].0),
        decreases at,
    {
        assert(all[at - 1].0 == list@[at - 1].0@);
        at = at - 1;
    }
    proof {
        if at > 0 {
            assert(all[at - 1].0 == list@[at - 1].0@);
        }
        lemma_placed(all, e, at as int);
    }
    list.insert(at, (name, size));
    assert(list.deep_view() =~= all.insert(at as int, e));
}

/// The lines of a listing.
pub fn list_entries(entries: &Vec<DirEntry>) -> (r: Vec<(String, Option<u64>)>)
    ensures
        r.deep_view() == listing(entries.deep_view()),
{
    let mut out: Vec<(String, Option<u64>)> = Vec::new();
    let ghost all = entries.deep_view();
    let n: usize = entries.len();
    let mut i: usize = 0;
    assert(all.take(0) =~= Seq::empty());
    assert(out.deep_view() =~= Seq::<(Seq<char>, Option<u64>)>::empty());
    while i < n
        invariant
            i <= n,
            n == entries@.len(),
            all == entries.deep_view(),
            out.deep_view() == listing(all.take(i as int)),
        decreases n - i,
    {
        assert(all.take(i + 1).drop_last() =~= all.take(i as int));
        assert(all.take(i + 1).last() == entries@[i as int].deep_view());
        let e = &entries[i];
        if !has_prefix(e.name.as_str(), ".ht") {
            if e.is_dir {
                let mut label = e.name.clone();
                label.append("/");
                place(&mut out, label, None);
            } else {
                place(&mut out, e.name.clone(), e.size);
            }
        }
        i = i + 1;
    }
    assert(all.take(n as int) =~= all);
    out
}

/// Where a listing says that it is.
pub open spec fn shown_path(raw: Seq<char>) -> Seq<char> {
    if starts_with(raw, "/"@) {
        raw
    } else {
        "/"@ + raw
    }
}

/// The size of a line of a listing.
pub open spec fn size_label(size: Option<u64>) -> Seq<char> {
    match size {
        Some(n) => size_text(n as int),
        None => ""@,
    }
}

/// The lines of a listing as HTML.
pub open spec fn rows(lines: Seq<(Seq<char>, Option<u64>)>, dir: Seq<char>) -> Seq<char>
    decreases lines.len(),
{
    if lines.len() == 0 {
        ""@
    } else {
        rows(lines.drop_last(), dir) + "<li><a href=\""@ + dir + "/"@ + lines.last().0 + "\">"@
            + escaped(lines.last().0) + "</a><span class=\"size\">"@ + size_label(lines.last().1)
            + "</span></li>"@
    }
}

/// What stands between the title and the heading of a listing.
pub const LISTING_STYLE: &'static str =
    "</title><style>body{font-family:system-ui,sans-serif;margin:1rem;max-width:40rem}ul{list-style:none;padding:0}li{padding:.4rem 0;border-bottom:1px solid #ddd}a{text-decoration:none;color:#2563eb;word-break:break-all}</style></head><body><h1>Index of ";

/// The page that lists a directory.
pub open spec fn listing_html(entries: Seq<DirEntryView>, raw: Seq<char>) -> Seq<char> {
    let p = shown_path(raw);
    PAGE_START@ + "Index of "@ + escaped(p) + LISTING_STYLE@ + escaped(p) + "</h1><ul>"@ + rows(
        listing(entries),
        trim_end(p, Class::One('/')),
    ) + "</ul></body></html>"@
}

/// The page that lists a directory at a path.
pub fn listing_page(entries: &Vec<DirEntry>, raw_path: &str) -> (r: String)
    ensures
        r@ == listing_html(entries.deep_view(), raw_path@),
{
    let lines = list_entries(entries);
    let shown = if has_prefix(raw_path, "/") {
        raw_path.to_owned()
    } else {
        let mut s = "/".to_owned();
        s.append(raw_path);
        s
    };
    let dir = trim_end_of(shown.as_str(), Class::One('/'));
    let title = html_escape(shown.as_str());
    let ghost all = lines.deep_view();
    let n: usize = lines.len();
    let mut html = "".to_owned();
    let mut i: usize = 0;
    assert(all.take(0) =~= Seq::empty());
    while i < n
        invariant
            i <= n,
            n == lines@.len(),
            all == lines.deep_view(),
            html@ == rows(all.take(i as int), dir@),
        decreases n - i,
    {
        assert(all.take(i + 1).drop_last() =~= all.take(i as int));
        assert(all.take(i + 1).last() == (lines@[i as int].0@, lines@[i as int].1));
        html.append("<li><a href=\"");
        html.append(dir.as_str());
        html.append("/");
        html.append(lines[i].0.as_str());
        html.append("\">");
        html.append(html_escape(lines[i].0.as_str()).as_str());
        html.append("</a><span class=\"size\">");
        let label = match lines[i].1 {
            Some(b) => size(b),
            None => "".to_owned(),
        };
        html.append(label.as_str());
        html.append("</span></li>");
        i = i + 1;
    }
    assert(all.take(n as int) =~= all);
    let mut out = PAGE_START.to_owned();
    out.append("Index of ");
    out.append(title.as_str());
    out.append(LISTING_STYLE);
    out.append(title.as_str());
    out.append("</h1><ul>");
    out.append(html.as_str());
    out.append("</ul></body></html>");
    out
}

/// The response that lists a directory.
pub fn serve_directory_listing(
    entries: &Vec<DirEntry>,
    raw_path: &str,
    head_only: bool,
) -> (r: Response)
    ensures
        r@ == page_response(
            200,
            "OK"@,
            listing_html(entries.deep_view(), raw_path@),
            head_only,
        ),
{
    let page = listing_page(entries, raw_path);
    respond_page(200, "OK", page.as_str(), head_only)
}

/// Whether the labels of lines never go down.
pub open spec fn in_order(list: Seq<(Seq<char>, Option<u64>)>) -> bool {
    forall|i: int, j: int|
        0 <= i < j < list.len() ==> !less((#[trigger] list[j]).0, (#[trigger] list[i]).0)
}

proof fn lemma_placed_order(list: Seq<(Seq<char>, Option<u64>)>, e: (Seq<char>, Option<u64>))
    requires
        in_order(list),
    ensures
        in_order(placed(list, e)),
        placed(list, e).len() == list.len() + 1,
        forall|i: int|
            0 <= i < placed(list, e).len() ==> (#[trigger] placed(list, e)[i] == e || list.contains(
                placed(list, e)[i],
            )),
        placed(list, e).to_multiset() == list.to_multiset().insert(e),
    decreases list.len(),
{
    broadcast use vstd::seq_lib::group_to_multiset_ensures;

    let r = placed(list, e);
    if list.len() == 0 || !less(e.0, list.last().0) {
        assert(r == list.push(e));
        assert forall|i: int, j: int| 0 <= i < j < r.len() implies !less(
            (#[trigger] r[j]).0,
            (#[trigger] r[i]).0,
        ) by {
            if j == list.len() {
                if less(e.0, list[i].0) {
                    let l = list.last();
                    if i < list.len() - 1 {
                        assert(!less(list[list.len() - 1].0, list[i].0));
                    }
                    lemma_less_total(e.0, l.0);
                    lemma_less_total(list[i].0, l.0);
                    lemma_less_irreflexive(l.0);
                    if less(l.0, e.0) {
                        lemma_less_transitive(l.0, e.0, list[i].0);
                    }
                }
            }
        }
    } else {
        let head = list.drop_last();
        assert forall|i: int, j: int| 0 <= i < j < head.len() implies !less(
            (#[trigger] head[j]).0,
            (#[trigger] head[i]).0,
        ) by {
            assert(head[i] == list[i] && head[j] == list[j]);
        }
        lemma_placed_order(head, e);
        let p = placed(head, e);
        assert(list =~= head.push(list.last()));
        assert forall|i: int| 0 <= i < r.len() implies #[trigger] r[i] == e || list.contains(
            r[i],
        ) by {
            if i < p.len() {
                assert(r[i] == p[i]);
                if p[i] != e {
                    let k = choose|k: int| 0 <= k < head.len() && head[k] == p[i];
                    assert(list[k] == p[i]);
                }
            } else {
                assert(list[list.len() - 1] == r[i]);
            }
        }
        assert forall|i: int, j: int| 0 <= i < j < r.len() implies !less(
            (#[trigger] r[j]).0,
            (#[trigger] r[i]).0,
        ) by {
            assert(r[i] == p[i]);
            if j < p.len() {
                assert(r[j] == p[j]);
            } else if p[i] == e {
                lemma_less_irreflexive(e.0);
                if less(list.last().0, e.0) {
                    lemma_less_transitive(e.0, list.last().0, e.0);
                }
            } else {
                let k = choose|k: int| 0 <= k < head.len() && head[k] == p[i];
                assert(list[k] == p[i]);
            }
        }
        assert(r.to_multiset() =~= list.to_multiset().insert(e));
    }
}

/// A listing is in the order of its labels, and it shows nothing that was not in
/// the directory.
pub proof fn listing_is_in_order(entries: Seq<DirEntryView>)
    ensures
        in_order(listing(entries)),
        forall|i: int|
            0 <= i < listing(entries).len() ==> exists|k: int|
                0 <= k < entries.len() && #[trigger] listing(entries)[i] == listing_line(
                    #[trigger] entries[k],
                ) && !starts_with(entries[k].name, ".ht"@),
    decreases entries.len(),
{
    if entries.len() > 0 {
        let head = entries.drop_last();
        listing_is_in_order(head);
        let rest = listing(head);
        let l = listing(entries);
        let hidden = starts_with(entries.last().name, ".ht"@);
        if !hidden {
            lemma_placed_order(rest, listing_line(entries.last()));
        }
        assert forall|i: int| 0 <= i < l.len() implies exists|k: int|
            0 <= k < entries.len() && #[trigger] l[i] == listing_line(#[trigger] entries[k])
                && !starts_with(entries[k].name, ".ht"@) by {
            if !hidden && l[i] == listing_line(entries.last()) {
                assert(entries[entries.len() - 1] == entries.last());
            } else {
                assert(rest.contains(l[i]));
                let m = choose|m: int| 0 <= m < rest.len() && rest[m] == l[i];
                let k = choose|k: int|
                    0 <= k < head.len() && rest[m] == listing_line(#[trigger] head[k])
                        && !starts_with(head[k].name, ".ht"@);
                assert(entries[k] == head[k]);
            }
        }
    }
}

} // verus!
