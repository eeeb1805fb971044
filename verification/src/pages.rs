//! Parsing of 1-indexed page selections such as `"1-3,5"` into sorted,
//! deduplicated 0-indexed page lists, and validation of a selection against
//! a document's page count.
//!
//! The grammar: a comma-separated list of parts; a part is blank (skipped),
//! a single 1-indexed page number, or a range `start-end` with `start >= 1`
//! and `end > start`; ASCII whitespace around parts and range endpoints is
//! ignored. Duplicates collapse. An empty selection means "all pages".
use vstd::prelude::*;
use vstd::string::StringSliceAdditionalSpecFns;

use crate::util::{
    find_byte_from, find_spec, lemma_find_spec_at, lemma_find_spec_none, trim_ascii, trim_spec,
};
use crate::KvError;

verus! {

/// An ASCII decimal digit.
pub open spec fn is_digit(b: u8) -> bool {
    48 <= b <= 57
}

/// A nonempty, all-digit byte sequence.
pub open spec fn all_digits(s: Seq<u8>) -> bool {
    s.len() > 0 && forall|i: int| 0 <= i < s.len() ==> is_digit(#[trigger] s[i])
}

/// The value of a digit sequence read as a decimal number.
pub open spec fn dec_val(s: Seq<u8>) -> int
    decreases s.len(),
{
    if s.len() == 0 {
        0
    } else {
        dec_val(s.drop_last()) * 10 + s.last() - 48
    }
}

/// A digit sequence naming a page number that fits in `u16`.
pub open spec fn is_page_number(s: Seq<u8>) -> bool {
    all_digits(s) && dec_val(s) <= 65535
}

/// The trimmed start and end tokens of a range part `start-end`; the end
/// token reaches to the second `-` or to the end of the part.
pub open spec fn range_bounds(t: Seq<u8>) -> (Seq<u8>, Seq<u8>) {
    let k = find_spec(t, 45);
    let start = trim_spec(t.subrange(0, k));
    let rest = t.subrange(k + 1, t.len() as int);
    let m = find_spec(rest, 45);
    let end_raw = if m < 0 {
        rest
    } else {
        rest.subrange(0, m)
    };
    (start, trim_spec(end_raw))
}

/// Whether one comma-separated part is well-formed: blank, a page number
/// `>= 1`, or a range with `start >= 1` and `end > start`.
pub open spec fn part_ok(p: Seq<u8>) -> bool {
    let t = trim_spec(p);
    if t.len() == 0 {
        true
    } else if 0 <= find_spec(t, 45) < t.len() {
        let (s, e) = range_bounds(t);
        is_page_number(s) && is_page_number(e) && dec_val(s) >= 1 && dec_val(e) > dec_val(s)
    } else {
        is_page_number(t) && dec_val(t) >= 1
    }
}

/// The 0-indexed pages one part selects.
pub open spec fn part_pages(p: Seq<u8>) -> Set<u16> {
    let t = trim_spec(p);
    if t.len() == 0 {
        Set::empty()
    } else if 0 <= find_spec(t, 45) < t.len() {
        let (s, e) = range_bounds(t);
        Set::new(|x: u16| dec_val(s) - 1 <= x <= dec_val(e) - 1)
    } else {
        Set::empty().insert((dec_val(t) - 1) as u16)
    }
}

/// Whether a whole selection string is well-formed: every part is.
pub open spec fn pages_ok(s: Seq<u8>) -> bool
    decreases s.len(),
{
    let k = find_spec(s, 44);
    if 0 <= k < s.len() {
        part_ok(s.subrange(0, k)) && pages_ok(s.subrange(k + 1, s.len() as int))
    } else {
        part_ok(s)
    }
}

/// The 0-indexed pages a whole selection string selects.
pub open spec fn pages_set(s: Seq<u8>) -> Set<u16>
    decreases s.len(),
{
    let k = find_spec(s, 44);
    if 0 <= k < s.len() {
        part_pages(s.subrange(0, k)).union(pages_set(s.subrange(k + 1, s.len() as int)))
    } else {
        part_pages(s)
    }
}

/// Strictly increasing: sorted with no duplicates.
pub open spec fn sorted_strict(v: Seq<u16>) -> bool {
    forall|i: int, j: int| 0 <= i < j < v.len() ==> v[i] < v[j]
}

/// Digit sequences have nonnegative values.
proof fn lemma_dec_val_nonneg(s: Seq<u8>)
    requires
        forall|j: int| 0 <= j < s.len() ==> is_digit(#[trigger] s[j]),
    ensures
        dec_val(s) >= 0,
    decreases s.len(),
{
    if s.len() > 0 {
        lemma_dec_val_nonneg(s.drop_last());
    }
}

/// The value of a digit sequence is at least the value of any prefix.
proof fn lemma_dec_val_mono(s: Seq<u8>, i: int)
    requires
        forall|j: int| 0 <= j < s.len() ==> is_digit(#[trigger] s[j]),
        0 <= i <= s.len(),
    ensures
        dec_val(s.subrange(0, i)) <= dec_val(s),
    decreases s.len() - i,
{
    if i == s.len() {
        assert(s.subrange(0, i) =~= s);
    } else {
        lemma_dec_val_nonneg(s.drop_last());
        lemma_dec_val_mono(s.drop_last(), i);
        assert(s.drop_last().subrange(0, i) =~= s.subrange(0, i));
    }
}

/// The page number a nonempty all-digit token names, or `None` when the
/// token is not all digits or its value exceeds `u16`.
fn parse_u16_digits(t: &[u8]) -> (r: Option<u16>)
    ensures
        r is Some <==> is_page_number(t@),
        r matches Some(v) ==> v as int == dec_val(t@),
{
    if t.len() == 0 {
        return None;
    }
    let mut i: usize = 0;
    while i < t.len()
        invariant
            0 <= i <= t@.len(),
            forall|j: int| 0 <= j < i ==> is_digit(#[trigger] t@[j]),
        decreases t@.len() - i,
    {
        if t[i] < 48 || t[i] > 57 {
            return None;
        }
        i = i + 1;
    }
    let mut acc: u32 = 0;
    let mut k: usize = 0;
    while k < t.len()
        invariant
            0 <= k <= t@.len(),
            forall|j: int| 0 <= j < t@.len() ==> is_digit(#[trigger] t@[j]),
            acc <= 65535,
            acc as int == dec_val(t@.subrange(0, k as int)),
        decreases t@.len() - k,
    {
        let d: u32 = (t[k] - 48) as u32;
        let next: u32 = acc * 10 + d;
        proof {
            assert(t@.subrange(0, k + 1).drop_last() =~= t@.subrange(0, k as int));
            assert(t@.subrange(0, k + 1).last() == t@[k as int]);
        }
        if next > 65535 {
            proof {
                lemma_dec_val_mono(t@, k + 1);
            }
            return None;
        }
        acc = next;
        k = k + 1;
    }
    proof {
        assert(t@.subrange(0, t@.len() as int) =~= t@);
    }
    Some(acc as u16)
}

/// Insert `x` into a strictly sorted vector, keeping it sorted and
/// duplicate-free.
fn insert_sorted(v: &mut Vec<u16>, x: u16)
    requires
        sorted_strict(old(v)@),
    ensures
        sorted_strict(final(v)@),
        forall|y: u16| final(v)@.contains(y) <==> (old(v)@.contains(y) || y == x),
{
    let mut j: usize = 0;
    while j < v.len() && v[j] < x
        invariant
            0 <= j <= v@.len(),
            sorted_strict(v@),
            v == old(v),
            forall|i: int| 0 <= i < j ==> v@[i] < x,
        decreases v@.len() - j,
    {
        j = j + 1;
    }
    if j < v.len() && v[j] == x {
        proof {
            assert(v@.contains(x)) by {
                assert(v@[j as int] == x);
            }
        }
        return ;
    }
    let ghost oldv = v@;
    v.insert(j, x);
    proof {
        assert forall|y: u16| v@.contains(y) <==> (oldv.contains(y) || y == x) by {
            if v@.contains(y) {
                let idx = choose|idx: int| 0 <= idx < v@.len() && v@[idx] == y;
                if idx < j {
                    assert(oldv[idx] == y);
                } else if idx == j {
                } else {
                    assert(oldv[idx - 1] == y);
                }
            }
            if oldv.contains(y) {
                let idx = choose|idx: int| 0 <= idx < oldv.len() && oldv[idx] == y;
                if idx < j {
                    assert(v@[idx] == y);
                } else {
                    assert(v@[idx + 1] == y);
                }
            }
            if y == x {
                assert(v@[j as int] == y);
            }
        }
        assert forall|a: int, b: int| 0 <= a < b < v@.len() implies v@[a] < v@[b] by {
            if b < j {
            } else if a > j {
                assert(oldv[a - 1] < oldv[b - 1]);
            } else if a < j && b == j {
                assert(oldv[a] < x);
            } else if a < j && b > j {
                assert(oldv[a] < x);
                assert(x <= oldv[b - 1]);
            } else if a == j && b > j {
                assert(x <= oldv[b - 1]);
                assert(x != oldv[b - 1]);
            }
        }
    }
}

/// Insert every page in `lo ..= hi` into a strictly sorted vector.
fn push_range(v: &mut Vec<u16>, lo: u16, hi: u16)
    requires
        sorted_strict(old(v)@),
        lo <= hi,
    ensures
        sorted_strict(final(v)@),
        forall|y: u16| final(v)@.contains(y) <==> (old(v)@.contains(y) || lo <= y <= hi),
{
    let mut k: u32 = lo as u32;
    while k <= hi as u32
        invariant
            lo <= k <= hi + 1,
            sorted_strict(v@),
            forall|y: u16| v@.contains(y) <==> (old(v)@.contains(y) || lo <= y < k),
        decreases hi + 1 - k,
    {
        insert_sorted(v, k as u16);
        k = k + 1;
    }
}

/// One comma-separated part, appended into the result. Returns whether the
/// part is well-formed; on a malformed part the result is unchanged.
fn process_part(part: &[u8], v: &mut Vec<u16>) -> (ok: bool)
    requires
        sorted_strict(old(v)@),
    ensures
        ok == part_ok(part@),
        !ok ==> final(v)@ == old(v)@,
        sorted_strict(final(v)@),
        ok ==> forall|y: u16|
            final(v)@.contains(y) <==> (old(v)@.contains(y) || part_pages(part@).contains(y)),
{
    let t = trim_ascii(part);
    if t.len() == 0 {
        return true;
    }
    match find_byte_from(t, 0, 45) {
        Some(k) => {
            proof {
                lemma_find_spec_at(t@, 45, k as int);
            }
            let start_s = trim_ascii(&t[0..k]);
            let rest = &t[k + 1..t.len()];
            let end_raw: &[u8] = match find_byte_from(rest, 0, 45) {
                Some(m) => {
                    proof {
                        lemma_find_spec_at(rest@, 45, m as int);
                    }
                    &rest[0..m]
                },
                None => {
                    proof {
                        lemma_find_spec_none(rest@, 45);
                    }
                    rest
                },
            };
            let end_s = trim_ascii(end_raw);
            let a_opt = parse_u16_digits(start_s);
            let b_opt = parse_u16_digits(end_s);
            match (a_opt, b_opt) {
                (Some(a), Some(b)) => {
                    if 1 <= a && a < b {
                        push_range(v, a - 1, b - 1);
                        proof {
                            assert(forall|y: u16|
                                part_pages(part@).contains(y) <==> a - 1 <= y <= b - 1);
                        }
                        true
                    } else {
                        false
                    }
                },
                _ => false,
            }
        },
        None => {
            proof {
                lemma_find_spec_none(t@, 45);
            }
            match parse_u16_digits(t) {
                Some(a) => {
                    if 1 <= a {
                        insert_sorted(v, a - 1);
                        true
                    } else {
                        false
                    }
                },
                None => false,
            }
        },
    }
}

/// Parse a 1-indexed page selection string into a sorted, duplicate-free
/// 0-indexed page list. A selection naming no page at all (blank parts
/// only, or the empty string) yields `None`, meaning "all pages"; a
/// malformed selection yields a page-range error.
pub fn parse_pages(pages: &str) -> (r: Result<Option<Vec<u16>>, KvError>)
    ensures
        r is Ok <==> pages_ok(pages.spec_bytes()),
        r is Err ==> r == Err::<Option<Vec<u16>>, KvError>(KvError::PageRangeError {
            bound: None,
        }),
        r matches Ok(Some(v)) ==> sorted_strict(v@) && v@.len() > 0 && forall|y: u16|
            v@.contains(y) <==> pages_set(pages.spec_bytes()).contains(y),
        r matches Ok(None) ==> pages_set(pages.spec_bytes()).is_empty(),
{
    let bs = pages.as_bytes();
    let ghost full = bs@;
    let mut result: Vec<u16> = Vec::new();
    let mut pos: usize = 0;
    let mut done: bool = false;
    proof {
        assert(full.subrange(0, full.len() as int) =~= full);
    }
    while !done
        invariant
            0 <= pos <= bs@.len(),
            bs@ == full,
            full == pages.spec_bytes(),
            sorted_strict(result@),
            pages_ok(full) <==> pages_ok(full.subrange(pos as int, full.len() as int)),
            forall|y: u16|
                pages_set(full).contains(y) <==> (result@.contains(y) || pages_set(
                    full.subrange(pos as int, full.len() as int),
                ).contains(y)),
            done ==> pos == bs@.len() && pages_ok(full),
        decreases full.len() - pos + (if done {
            0int
        } else {
            1int
        }),
    {
        let ghost rem = full.subrange(pos as int, full.len() as int);
        match find_byte_from(bs, pos, 44) {
            Some(k) => {
                proof {
                    assert(forall|j: int| 0 <= j < k - pos ==> rem[j] != 44);
                    assert(rem[k - pos] == 44);
                    lemma_find_spec_at(rem, 44, k - pos);
                    assert(rem.subrange(0, k - pos) =~= full.subrange(pos as int, k as int));
                    assert(rem.subrange(k - pos + 1, rem.len() as int) =~= full.subrange(
                        k + 1,
                        full.len() as int,
                    ));
                }
                let part = &bs[pos..k];
                if !process_part(part, &mut result) {
                    proof {
                        assert(part@ =~= rem.subrange(0, k - pos));
                        assert(!pages_ok(rem));
                    }
                    return Err(KvError::PageRangeError { bound: None });
                }
                pos = k + 1;
            },
            None => {
                proof {
                    assert(forall|j: int| 0 <= j < rem.len() ==> rem[j] != 44);
                    lemma_find_spec_none(rem, 44);
                }
                let part = &bs[pos..bs.len()];
                if !process_part(part, &mut result) {
                    proof {
                        assert(part@ =~= rem);
                        assert(!pages_ok(rem));
                    }
                    return Err(KvError::PageRangeError { bound: None });
                }
                pos = bs.len();
                done = true;
                proof {
                    assert(full.subrange(pos as int, full.len() as int) =~= Seq::<u8>::empty());
                    assert(trim_spec(Seq::<u8>::empty()).len() == 0);
                }
            },
        }
    }
    proof {
        assert(full.subrange(pos as int, full.len() as int) =~= Seq::<u8>::empty());
    }
    if result.len() == 0 {
        proof {
            assert forall|y: u16| !pages_set(full).contains(y) by {
                assert(!result@.contains(y));
            }
            assert(pages_set(full).is_empty()) by {
                assert(pages_set(full) =~= Set::empty());
            }
        }
        Ok(None)
    } else {
        Ok(Some(result))
    }
}


/// The pages a PDF render must produce, given the request's selection and
/// the document's page count: the selection itself when every index is in
/// range, all pages when there is no selection. An index at or past the
/// page count is a page-range error naming the count; an empty final
/// selection (no pages requested, or a document with no pages) is a parse
/// error.
pub open spec fn spec_select_pages(pi: Option<Seq<u16>>, n: u16) -> Result<Seq<u16>, KvError> {
    match pi {
        Some(v) => if exists|i: int| 0 <= i < v.len() && #[trigger] v[i] >= n {
            Err(KvError::PageRangeError { bound: Some(n) })
        } else if v.len() == 0 {
            Err(KvError::ParseError)
        } else {
            Ok(v)
        },
        None => if n == 0 {
            Err(KvError::ParseError)
        } else {
            Ok(Seq::new(n as nat, |i: int| i as u16))
        },
    }
}

/// Validate a page selection against a document's page count and produce
/// the 0-indexed pages to render, exactly as `spec_select_pages` says.
pub fn select_pdf_pages(page_indices: &Option<Vec<u16>>, n_pages: u16) -> (r: Result<
    Vec<u16>,
    KvError,
>)
    ensures
        match r {
            Ok(sel) => spec_select_pages(page_indices.deep_view(), n_pages) == Ok::<
                Seq<u16>,
                KvError,
            >(sel@),
            Err(e) => spec_select_pages(page_indices.deep_view(), n_pages) == Err::<
                Seq<u16>,
                KvError,
            >(e),
        },
{
    match page_indices {
        Some(v) => {
            proof {
                assert(v.deep_view() =~= v@);
            }
            let mut i: usize = 0;
            let mut out: Vec<u16> = Vec::new();
            while i < v.len()
                invariant
                    0 <= i <= v@.len(),
                    page_indices.deep_view() == Some(v@),
                    out@ =~= v@.subrange(0, i as int),
                    forall|j: int| 0 <= j < i ==> #[trigger] v@[j] < n_pages,
                decreases v@.len() - i,
            {
                let x = v[i];
                if x >= n_pages {
                    proof {
                        assert(v@[i as int] >= n_pages);
                    }
                    return Err(KvError::PageRangeError { bound: Some(n_pages) });
                }
                out.push(x);
                i = i + 1;
            }
            proof {
                assert(out@ =~= v@);
                assert(v@ == page_indices.deep_view().unwrap());
            }
            if out.len() == 0 {
                Err(KvError::ParseError)
            } else {
                Ok(out)
            }
        },
        None => {
            if n_pages == 0 {
                return Err(KvError::ParseError);
            }
            let mut out: Vec<u16> = Vec::new();
            let mut i: u16 = 0;
            while i < n_pages
                invariant
                    0 <= i <= n_pages,
                    out@ =~= Seq::new(i as nat, |j: int| j as u16),
                decreases n_pages - i,
            {
                out.push(i);
                proof {
                    assert(out@ =~= Seq::new((i + 1) as nat, |j: int| j as u16));
                }
                i = i + 1;
            }
            Ok(out)
        },
    }
}

} // verus!
