//! Which bytes of a file a range asks for.

use vstd::prelude::*;

use crate::digits::decimal;
use crate::laws::wording::{
    lemma_around, lemma_decimal_digits, lemma_lacking, lemma_prefixed, lemma_tight,
    numbers_read_back,
};
use crate::servers::files::range_in;
use crate::text::starts_with;

verus! {

/// A text of digits and a hyphen holds no comma, and nothing to trim.
proof fn lemma_plain_range(a: Seq<char>, b: Seq<char>)
    requires
        forall|i: int| 0 <= i < a.len() ==> '0' <= #[trigger] a[i] <= '9',
        forall|i: int| 0 <= i < b.len() ==> '0' <= #[trigger] b[i] <= '9',
    ensures
        !a.contains('-'),
        !(a + seq!['-'] + b).contains(','),
        crate::text::trim(a + seq!['-'] + b) == a + seq!['-'] + b,
        crate::text::before(a + seq!['-'] + b, ',') == a + seq!['-'] + b,
        crate::text::split_once(a + seq!['-'] + b, '-') == Some((a, b)),
{
    let s = a + seq!['-'] + b;
    assert forall|i: int| 0 <= i < s.len() implies '0' <= #[trigger] s[i] <= '9' || s[i] == '-' by {
        if i < a.len() {
            assert(s[i] == a[i]);
        } else if i > a.len() {
            assert(s[i] == b[i - a.len() - 1]);
        }
    }
    lemma_lacking(s, ',');
    lemma_tight(s);
    lemma_around(a, '-', b);
}

/// A range from one byte to another gives these bytes, up to the end of the file. It
/// is refused where its ends are crossed, or where it starts behind the file.
pub proof fn ranges_are_cut_at_the_end(a: u64, b: u64, len: u64)
    ensures
        ({
            let header = "bytes="@ + (decimal(a as int) + seq!['-'] + decimal(b as int));
            if a <= b && a < len {
                range_in(header, len) == Some(
                    (
                        a,
                        if b < len {
                            b
                        } else {
                            (len - 1) as u64
                        },
                    ),
                )
            } else {
                range_in(header, len) is None
            }
        }),
{
    lemma_decimal_digits(a as int);
    lemma_decimal_digits(b as int);
    numbers_read_back(a as int);
    numbers_read_back(b as int);
    lemma_plain_range(decimal(a as int), decimal(b as int));
    lemma_prefixed("bytes="@, decimal(a as int) + seq!['-'] + decimal(b as int));
}

/// A range without an end goes to the end of the file.
pub proof fn open_ranges_go_to_the_end(a: u64, len: u64)
    ensures
        ({
            let header = "bytes="@ + (decimal(a as int) + seq!['-']);
            if a < len {
                range_in(header, len) == Some((a, (len - 1) as u64))
            } else {
                range_in(header, len) is None
            }
        }),
{
    lemma_decimal_digits(a as int);
    numbers_read_back(a as int);
    let none = Seq::<char>::empty();
    assert(decimal(a as int) + seq!['-'] + none =~= decimal(a as int) + seq!['-']);
    lemma_plain_range(decimal(a as int), none);
    lemma_prefixed("bytes="@, decimal(a as int) + seq!['-']);
}

/// A range without a start gives as many bytes as it says from the end of the file,
/// and the whole file where it is shorter.
pub proof fn suffix_ranges_count_from_the_end(n: u64, len: u64)
    ensures
        ({
            let header = "bytes="@ + (seq!['-'] + decimal(n as int));
            if n > 0 && len > 0 {
                range_in(header, len) == Some(
                    (
                        if n < len {
                            (len - n) as u64
                        } else {
                            0
                        },
                        (len - 1) as u64,
                    ),
                )
            } else {
                range_in(header, len) is None
            }
        }),
{
    lemma_decimal_digits(n as int);
    numbers_read_back(n as int);
    let none = Seq::<char>::empty();
    assert(none + seq!['-'] + decimal(n as int) =~= seq!['-'] + decimal(n as int));
    lemma_plain_range(none, decimal(n as int));
    lemma_prefixed("bytes="@, seq!['-'] + decimal(n as int));
}

/// Of several ranges the first counts.
pub proof fn the_first_range_counts(first: Seq<char>, others: Seq<char>, len: u64)
    requires
        !first.contains(','),
    ensures
        range_in("bytes="@ + (first + seq![','] + others), len) == range_in("bytes="@ + first, len),
{
    lemma_prefixed("bytes="@, first + seq![','] + others);
    lemma_prefixed("bytes="@, first);
    lemma_around(first, ',', others);
    lemma_lacking(first, ',');
}

/// What asks for no bytes gives none.
pub proof fn other_units_are_refused(header: Seq<char>, len: u64)
    requires
        !starts_with(header, "bytes="@),
    ensures
        range_in(header, len) is None,
{
}

} // verus!
