//! Body-level laws of the writer: where the payload stands inside a part,
//! and how many delimiters a finished body holds.

use vstd::prelude::*;
use vstd::utf8::{encode_utf8, is_ascii_chars, is_ascii_chars_encode_utf8};
use crate::field::FieldView;
use crate::writer::{closing_bytes, crlf, header_bytes, header_line_bytes, part_bytes};

verus! {

/// The delimiter bytes: `--` followed by the boundary.
pub open spec fn delimiter_bytes(boundary: Seq<char>) -> Seq<u8> {
    encode_utf8("--"@) + encode_utf8(boundary)
}

/// The opening delimiter line a part starts with.
pub open spec fn opening_bytes(boundary: Seq<char>) -> Seq<u8> {
    delimiter_bytes(boundary) + crlf()
}

/// The pattern `p` occurs in `w` at position `i`.
pub open spec fn match_at(w: Seq<u8>, p: Seq<u8>, i: int) -> bool {
    0 <= i && i + p.len() <= w.len() && w.subrange(i, i + p.len()) == p
}

/// How many positions in `lo <= i < hi` the pattern `p` matches at.
pub open spec fn count_matches_from(w: Seq<u8>, p: Seq<u8>, lo: int, hi: int) -> nat
    decreases hi - lo,
{
    if lo >= hi {
        0
    } else {
        (if match_at(w, p, lo) {
            1nat
        } else {
            0nat
        }) + count_matches_from(w, p, lo + 1, hi)
    }
}

/// How many positions of `w` the pattern `p` matches at.
pub open spec fn count_matches(w: Seq<u8>, p: Seq<u8>) -> nat {
    count_matches_from(w, p, 0, w.len() as int)
}

/// The concrete bytes of the two literals every delimiter is built from.
pub proof fn lemma_delimiter_literals()
    ensures
        crlf() == seq![13u8, 10u8],
        encode_utf8("--"@) == seq![45u8, 45u8],
{
    reveal_strlit("\r\n");
    reveal_strlit("--");
    assert(is_ascii_chars("\r\n"@));
    is_ascii_chars_encode_utf8("\r\n"@);
    assert(crlf() =~= seq![13u8, 10u8]);
    assert(is_ascii_chars("--"@));
    is_ascii_chars_encode_utf8("--"@);
    assert(encode_utf8("--"@) =~= seq![45u8, 45u8]);
}

/// A match of a pattern at a position past `a` is a match in `b` alone.
pub proof fn lemma_match_at_shift(a: Seq<u8>, b: Seq<u8>, p: Seq<u8>, i: int)
    requires
        i >= a.len(),
    ensures
        match_at(a + b, p, i) == match_at(b, p, i - a.len()),
{
    if i + p.len() <= a.len() + b.len() {
        assert((a + b).subrange(i, i + p.len()) =~= b.subrange(
            i - a.len(),
            i - a.len() + p.len(),
        ));
    }
}

/// A match of a pattern that falls wholly before the end of `a` is a match
/// in `a` alone.
pub proof fn lemma_match_at_left(a: Seq<u8>, b: Seq<u8>, p: Seq<u8>, i: int)
    requires
        i + p.len() <= a.len(),
    ensures
        match_at(a + b, p, i) == match_at(a, p, i),
{
    if 0 <= i {
        assert((a + b).subrange(i, i + p.len()) =~= a.subrange(i, i + p.len()));
    }
}

/// A match of a concatenated pattern is a match of its first half.
pub proof fn lemma_match_at_prefix(w: Seq<u8>, p: Seq<u8>, q: Seq<u8>, i: int)
    requires
        match_at(w, p + q, i),
    ensures
        match_at(w, p, i),
{
    assert(w.subrange(i, i + p.len()) =~= w.subrange(i, i + (p + q).len()).take(p.len() as int));
    assert((p + q).take(p.len() as int) =~= p);
}

/// Counting over a window splits at any midpoint.
pub proof fn lemma_count_split(w: Seq<u8>, p: Seq<u8>, lo: int, mid: int, hi: int)
    requires
        lo <= mid <= hi,
    ensures
        count_matches_from(w, p, lo, hi) == count_matches_from(w, p, lo, mid)
            + count_matches_from(w, p, mid, hi),
    decreases mid - lo,
{
    if lo < mid {
        lemma_count_split(w, p, lo + 1, mid, hi);
    }
}

/// Counting in the part of a concatenation past `a` is counting in `b`.
pub proof fn lemma_count_shift(a: Seq<u8>, b: Seq<u8>, p: Seq<u8>, lo: int, hi: int)
    requires
        a.len() <= lo,
    ensures
        count_matches_from(a + b, p, lo, hi) == count_matches_from(
            b,
            p,
            lo - a.len(),
            hi - a.len(),
        ),
    decreases hi - lo,
{
    if lo < hi {
        lemma_match_at_shift(a, b, p, lo);
        lemma_count_shift(a, b, p, lo + 1, hi);
    }
}

/// A window without a match counts zero.
pub proof fn lemma_count_zero(w: Seq<u8>, p: Seq<u8>, lo: int, hi: int)
    requires
        forall|i: int| lo <= i < hi ==> !match_at(w, p, i),
    ensures
        count_matches_from(w, p, lo, hi) == 0,
    decreases hi - lo,
{
    if lo < hi {
        lemma_count_zero(w, p, lo + 1, hi);
    }
}

/// A window whose one match stands at its start counts one.
pub proof fn lemma_count_single(w: Seq<u8>, p: Seq<u8>, lo: int, hi: int)
    requires
        lo < hi,
        match_at(w, p, lo),
        forall|i: int| lo < i < hi ==> !match_at(w, p, i),
    ensures
        count_matches_from(w, p, lo, hi) == 1,
{
    lemma_count_zero(w, p, lo + 1, hi);
}

/// One byte of a match, read off the pattern.
pub proof fn lemma_match_at_index(w: Seq<u8>, p: Seq<u8>, i: int, t: int)
    requires
        match_at(w, p, i),
        0 <= t < p.len(),
    ensures
        w[i + t] == p[t],
{
    assert(w.subrange(i, i + p.len())[t] == w[i + t]);
}

/// Payload transparency: when another delimiter follows the part, the
/// payload stands verbatim between the part's header terminator and the
/// following `CRLF "--" boundary`; and as long as the payload holds no
/// `"--" boundary` and the boundary bytes hold no CR, that following
/// delimiter is the first one at or after the payload.
pub proof fn lemma_payload_transparency(
    boundary: Seq<char>,
    f: FieldView,
    prefix: Seq<u8>,
    rest: Seq<u8>,
)
    requires
        match_at(rest, delimiter_bytes(boundary), 0),
        forall|j: int| !match_at(f.data, delimiter_bytes(boundary), j),
        forall|j: int| 0 <= j < encode_utf8(boundary).len() ==> encode_utf8(boundary)[j] != 13,
    ensures
        ({
            let w = prefix + part_bytes(boundary, f) + rest;
            let p0 = prefix.len() + header_bytes(boundary, f).len() as int;
            let pe = p0 + f.data.len();
            &&& w.subrange(p0, pe) == f.data
            &&& match_at(w, crlf() + delimiter_bytes(boundary), pe)
            &&& forall|q: int|
                p0 - 2 <= q < pe ==> !match_at(w, crlf() + delimiter_bytes(boundary), q)
        }),
{
    lemma_delimiter_literals();
    let w = prefix + part_bytes(boundary, f) + rest;
    let dd = delimiter_bytes(boundary);
    let pat = crlf() + dd;
    let p0 = prefix.len() + header_bytes(boundary, f).len() as int;
    let pe = p0 + f.data.len();

    assert(w.subrange(p0, pe) =~= f.data);

    assert(forall|j: int| 0 <= j < dd.len() ==> rest[j] == dd[j]) by {
        assert(forall|j: int|
            0 <= j < dd.len() ==> rest.subrange(0, dd.len() as int)[j] == rest[j]);
    }
    assert(w.subrange(pe, pe + pat.len()) =~= pat);

    assert(w[pe] == 13);
    assert forall|q: int| p0 - 2 <= q < pe implies !match_at(w, pat, q) by {
        if match_at(w, pat, q) {
            if q + pat.len() <= pe {
                // the delimiter part of the pattern would stand inside the
                // payload
                let d0 = q + 2 - p0;
                assert(f.data.subrange(d0, d0 + dd.len()) =~= dd) by {
                    assert(forall|t: int| 0 <= t < dd.len() ==> #[trigger] pat[2 + t] == dd[t]);
                    assert(forall|t: int|
                        0 <= t < dd.len() ==> #[trigger] f.data.subrange(d0, d0 + dd.len())[t]
                            == w[q + 2 + t]);
                    assert(forall|t: int|
                        0 <= t < dd.len() ==> #[trigger] w[q + 2 + t] == pat[2 + t]) by {
                        assert(forall|t: int|
                            0 <= t < dd.len() ==> #[trigger] w.subrange(q, q + pat.len())[2 + t]
                                == w[q + 2 + t]);
                    }
                }
                assert(match_at(f.data, dd, d0));
            } else {
                // the pattern would cover the CR that ends the payload, and
                // no byte of the pattern is a CR except its own first byte
                let t = pe - q;
                lemma_match_at_index(w, pat, q, t);
                assert(pat[t] == 13);
                if t == 1 {
                } else {
                    assert(dd[t - 2] == 13);
                }
            }
        }
    }
}

/// The body produced by appending each field in `fields` in order and then
/// finishing: the parts one after another, then the closing delimiter.
pub open spec fn body_bytes(boundary: Seq<char>, fields: Seq<FieldView>) -> Seq<u8>
    decreases fields.len(),
{
    if fields.len() == 0 {
        closing_bytes(boundary)
    } else {
        part_bytes(boundary, fields.first()) + body_bytes(boundary, fields.drop_first())
    }
}

/// Where the `k`-th part (or, at `k == fields.len()`, the closing delimiter)
/// starts inside the body.
pub open spec fn part_offset(boundary: Seq<char>, fields: Seq<FieldView>, k: int) -> int
    decreases k,
{
    if k <= 0 {
        0
    } else {
        part_bytes(boundary, fields.first()).len() + part_offset(
            boundary,
            fields.drop_first(),
            k - 1,
        )
    }
}

/// `i` is a position at which the writer itself put a delimiter.
pub open spec fn is_delimiter_offset(boundary: Seq<char>, fields: Seq<FieldView>, i: int) -> bool {
    exists|k: int| 0 <= k <= fields.len() && i == part_offset(boundary, fields, k)
}

pub proof fn lemma_part_offset_nonneg(boundary: Seq<char>, fields: Seq<FieldView>, k: int)
    ensures
        part_offset(boundary, fields, k) >= 0,
    decreases k,
{
    if k > 0 {
        lemma_part_offset_nonneg(boundary, fields.drop_first(), k - 1);
    }
}

/// The bytes of a run of parts, without the closing delimiter.
pub open spec fn parts_bytes(boundary: Seq<char>, fields: Seq<FieldView>) -> Seq<u8>
    decreases fields.len(),
{
    if fields.len() == 0 {
        Seq::empty()
    } else {
        part_bytes(boundary, fields.first()) + parts_bytes(boundary, fields.drop_first())
    }
}

/// Every body starts with `"--" boundary`, whether its first line is a
/// part's opening delimiter or the closing delimiter.
pub proof fn lemma_body_starts_with_delimiter(boundary: Seq<char>, fields: Seq<FieldView>)
    ensures
        match_at(body_bytes(boundary, fields), delimiter_bytes(boundary), 0),
{
    let w = body_bytes(boundary, fields);
    let dd = delimiter_bytes(boundary);
    assert(w.subrange(0, dd.len() as int) =~= dd);
}

/// A body splits, before its `k`-th part, into the earlier parts and the
/// body of the remaining fields; the split falls at the part's offset.
pub proof fn lemma_body_split_at(boundary: Seq<char>, fields: Seq<FieldView>, k: int)
    requires
        0 <= k <= fields.len(),
    ensures
        body_bytes(boundary, fields) == parts_bytes(boundary, fields.take(k)) + body_bytes(
            boundary,
            fields.skip(k),
        ),
        parts_bytes(boundary, fields.take(k)).len() == part_offset(boundary, fields, k),
    decreases k,
{
    if k == 0 {
        assert(fields.skip(0) =~= fields);
        assert(parts_bytes(boundary, fields.take(0)) =~= Seq::empty());
        assert(parts_bytes(boundary, fields.take(0)) + body_bytes(boundary, fields)
            =~= body_bytes(boundary, fields));
    } else {
        lemma_body_split_at(boundary, fields.drop_first(), k - 1);
        assert(fields.take(k).first() == fields.first());
        assert(fields.take(k).drop_first() =~= fields.drop_first().take(k - 1));
        assert(fields.skip(k) =~= fields.drop_first().skip(k - 1));
        assert(body_bytes(boundary, fields) =~= parts_bytes(boundary, fields.take(k))
            + body_bytes(boundary, fields.skip(k)));
    }
}

/// Payload transparency inside a finished body: the payload of the `k`-th
/// part stands verbatim between that part's header terminator and the
/// following `CRLF "--" boundary`, which — for a payload holding no
/// `"--" boundary` and a boundary holding no CR — is the first such
/// delimiter at or after the payload.
pub proof fn lemma_body_payload_transparency(
    boundary: Seq<char>,
    fields: Seq<FieldView>,
    k: int,
)
    requires
        0 <= k < fields.len(),
        forall|j: int| !match_at(fields[k].data, delimiter_bytes(boundary), j),
        forall|j: int| 0 <= j < encode_utf8(boundary).len() ==> encode_utf8(boundary)[j] != 13,
    ensures
        ({
            let w = body_bytes(boundary, fields);
            let p0 = part_offset(boundary, fields, k) + header_bytes(
                boundary,
                fields[k],
            ).len() as int;
            let pe = p0 + fields[k].data.len();
            &&& w.subrange(p0, pe) == fields[k].data
            &&& match_at(w, crlf() + delimiter_bytes(boundary), pe)
            &&& forall|q: int|
                p0 - 2 <= q < pe ==> !match_at(w, crlf() + delimiter_bytes(boundary), q)
        }),
{
    lemma_body_split_at(boundary, fields, k);
    let prefix = parts_bytes(boundary, fields.take(k));
    let rest = body_bytes(boundary, fields.skip(k + 1));
    assert(fields.skip(k).first() == fields[k]);
    assert(fields.skip(k).drop_first() =~= fields.skip(k + 1));
    assert(body_bytes(boundary, fields.skip(k)) == part_bytes(boundary, fields[k]) + rest);
    assert(body_bytes(boundary, fields) == prefix + (part_bytes(boundary, fields[k]) + rest));
    assert(body_bytes(boundary, fields) =~= prefix + part_bytes(boundary, fields[k]) + rest);
    lemma_body_starts_with_delimiter(boundary, fields.skip(k + 1));
    lemma_payload_transparency(boundary, fields[k], prefix, rest);
}

/// Delimiter count: a body produced by `n` appends followed by `end` holds
/// exactly `n` opening delimiters `"--" boundary CRLF` and exactly one
/// closing delimiter `"--" boundary "--" CRLF`, as long as the bytes
/// `"--" boundary` occur only where the writer itself put them — the
/// boundary must not appear inside any payload or header value, which the
/// writer leaves in the caller's responsibility.
#[verifier::rlimit(100)]
pub proof fn lemma_delimiter_count(boundary: Seq<char>, fields: Seq<FieldView>)
    requires
        forall|i: int|
            match_at(body_bytes(boundary, fields), delimiter_bytes(boundary), i)
                ==> is_delimiter_offset(boundary, fields, i),
    ensures
        count_matches(body_bytes(boundary, fields), opening_bytes(boundary)) == fields.len(),
        count_matches(body_bytes(boundary, fields), closing_bytes(boundary)) == 1,
    decreases fields.len(),
{
    lemma_delimiter_literals();
    let w = body_bytes(boundary, fields);
    let dd = delimiter_bytes(boundary);
    let opn = opening_bytes(boundary);
    let cls = closing_bytes(boundary);
    if fields.len() == 0 {
        assert(w == cls);
        assert(w[dd.len() as int] == 45);
        assert forall|i: int| 0 <= i < w.len() implies !match_at(w, opn, i) by {
            if match_at(w, opn, i) {
                lemma_match_at_prefix(w, dd, crlf(), i);
                assert(is_delimiter_offset(boundary, fields, i));
                assert(i == 0);
                lemma_match_at_index(w, opn, 0, dd.len() as int);
            }
        }
        lemma_count_zero(w, opn, 0, w.len() as int);
        assert(match_at(w, cls, 0)) by {
            assert(w.subrange(0, cls.len() as int) =~= cls);
        }
        assert forall|i: int| 0 < i < w.len() implies !match_at(w, cls, i) by {
            if match_at(w, cls, i) {
                assert(match_at(w, dd + (encode_utf8("--"@) + crlf()), i)) by {
                    assert(dd + (encode_utf8("--"@) + crlf()) =~= cls);
                }
                lemma_match_at_prefix(w, dd, encode_utf8("--"@) + crlf(), i);
                assert(is_delimiter_offset(boundary, fields, i));
                assert(i == 0);
            }
        }
        lemma_count_single(w, cls, 0, w.len() as int);
    } else {
        let part = part_bytes(boundary, fields.first());
        let tail = body_bytes(boundary, fields.drop_first());
        assert(w == part + tail);
        assert(part.len() >= dd.len() + 4);
        assert(w[dd.len() as int] == 13) by {
            let hdr = header_bytes(boundary, fields.first());
            assert(hdr[dd.len() as int] == crlf()[0]);
        }

        // the hypothesis carries over to the shorter body
        assert forall|j: int|
            match_at(tail, dd, j) implies is_delimiter_offset(
            boundary,
            fields.drop_first(),
            j,
        ) by {
            lemma_match_at_shift(part, tail, dd, j + part.len());
            assert(match_at(w, dd, j + part.len()));
            assert(is_delimiter_offset(boundary, fields, j + part.len()));
            let k = choose|k: int|
                0 <= k <= fields.len() && j + part.len() == part_offset(boundary, fields, k);
            assert(0 <= k <= fields.len() && j + part.len() == part_offset(boundary, fields, k));
            lemma_part_offset_nonneg(boundary, fields.drop_first(), k - 1);
            assert(k >= 1);
            assert(part_offset(boundary, fields, k) == part.len() + part_offset(
                boundary,
                fields.drop_first(),
                k - 1,
            ));
            assert(j == part_offset(boundary, fields.drop_first(), k - 1));
        }
        lemma_delimiter_count(boundary, fields.drop_first());

        // within the first part, the opening delimiter stands at its head
        // and nowhere else, and the closing delimiter nowhere at all
        assert(match_at(w, opn, 0)) by {
            assert(w.subrange(0, opn.len() as int) =~= opn);
        }
        assert forall|i: int| 0 < i < part.len() implies !match_at(w, opn, i) by {
            if match_at(w, opn, i) {
                lemma_match_at_prefix(w, dd, crlf(), i);
                assert(is_delimiter_offset(boundary, fields, i));
                let k = choose|k: int|
                    0 <= k <= fields.len() && i == part_offset(boundary, fields, k);
                assert(0 <= k <= fields.len() && i == part_offset(boundary, fields, k));
                if k >= 1 {
                    lemma_part_offset_nonneg(boundary, fields.drop_first(), k - 1);
                }
            }
        }
        lemma_count_single(w, opn, 0, part.len() as int);
        assert forall|i: int| 0 <= i < part.len() implies !match_at(w, cls, i) by {
            if match_at(w, cls, i) {
                assert(match_at(w, dd + (encode_utf8("--"@) + crlf()), i)) by {
                    assert(dd + (encode_utf8("--"@) + crlf()) =~= cls);
                }
                lemma_match_at_prefix(w, dd, encode_utf8("--"@) + crlf(), i);
                assert(is_delimiter_offset(boundary, fields, i));
                let k = choose|k: int|
                    0 <= k <= fields.len() && i == part_offset(boundary, fields, k);
                assert(0 <= k <= fields.len() && i == part_offset(boundary, fields, k));
                if k >= 1 {
                    lemma_part_offset_nonneg(boundary, fields.drop_first(), k - 1);
                }
                assert(i == 0);
                lemma_match_at_index(w, cls, 0, dd.len() as int);
            }
        }
        lemma_count_zero(w, cls, 0, part.len() as int);

        // put the two windows together
        lemma_count_split(w, opn, 0, part.len() as int, w.len() as int);
        lemma_count_shift(part, tail, opn, part.len() as int, w.len() as int);
        lemma_count_split(w, cls, 0, part.len() as int, w.len() as int);
        lemma_count_shift(part, tail, cls, part.len() as int, w.len() as int);
    }
}

/// The delimiter bytes hold no CR and no LF when the boundary holds none.
pub open spec fn boundary_crlf_free(boundary: Seq<char>) -> bool {
    forall|j: int|
        0 <= j < encode_utf8(boundary).len() ==> encode_utf8(boundary)[j] != 13 && encode_utf8(
            boundary,
        )[j] != 10
}

/// One appended part holds the delimiter bytes only at its head, as long as
/// the boundary holds no CR or LF and the delimiter occurs neither in the
/// part's header text nor in its payload.
#[verifier::rlimit(100)]
pub proof fn lemma_part_matches_only_at_head(boundary: Seq<char>, f: FieldView)
    requires
        boundary_crlf_free(boundary),
        forall|j: int| !match_at(header_line_bytes(f), delimiter_bytes(boundary), j),
        forall|j: int| !match_at(f.data, delimiter_bytes(boundary), j),
    ensures
        forall|i: int|
            #[trigger] match_at(part_bytes(boundary, f), delimiter_bytes(boundary), i) ==> i
                == 0,
{
    lemma_delimiter_literals();
    let w = part_bytes(boundary, f);
    let dd = delimiter_bytes(boundary);
    let mid = header_line_bytes(f);
    let m0: int = dd.len() as int + 2;
    let m1: int = m0 + mid.len();
    let d0: int = m1 + 4;
    let d1: int = d0 + f.data.len();
    assert(w =~= dd + crlf() + mid + crlf() + crlf() + f.data + crlf());
    assert(w.len() == d1 + 2);
    assert(forall|t: int| 0 <= t < dd.len() ==> dd[t] != 13 && dd[t] != 10);
    assert(dd[0] == 45);
    assert(w[dd.len() as int] == 13);
    assert(w[dd.len() as int + 1] == 10);
    assert(w[m1] == 13);
    assert(w[m1 + 1] == 10);
    assert(w[m1 + 2] == 13);
    assert(w[m1 + 3] == 10);
    assert(w[d1] == 13);
    assert(w[d1 + 1] == 10);
    assert(forall|r: int| 0 <= r < mid.len() ==> #[trigger] mid[r] == w[m0 + r]);
    assert(forall|r: int| 0 <= r < f.data.len() ==> #[trigger] f.data[r] == w[d0 + r]);
    assert forall|i: int| #[trigger] match_at(w, dd, i) implies i == 0 by {
        if match_at(w, dd, i) && i != 0 {
            assert(forall|t: int| 0 <= t < dd.len() ==> #[trigger] w[i + t] == dd[t]) by {
                assert(forall|t: int|
                    0 <= t < dd.len() ==> #[trigger] w.subrange(i, i + dd.len())[t] == w[i + t]);
            }
            if i < dd.len() {
                assert(w[dd.len() as int] == dd[dd.len() - i]);
            } else if i < m0 {
                assert(w[i] == dd[0]);
            } else if i < m1 {
                if i + dd.len() <= m1 {
                    assert(mid.subrange(i - m0, i - m0 + dd.len()) =~= dd);
                    assert(match_at(mid, dd, i - m0));
                } else {
                    assert(w[m1] == dd[m1 - i]);
                }
            } else if i < d0 {
                assert(w[i] == dd[0]);
            } else if i < d1 {
                if i + dd.len() <= d1 {
                    assert(f.data.subrange(i - d0, i - d0 + dd.len()) =~= dd);
                    assert(match_at(f.data, dd, i - d0));
                } else {
                    assert(w[d1] == dd[d1 - i]);
                }
            } else {
                assert(w[i] == dd[0]);
            }
        }
    }
}

/// When the boundary holds no CR or LF, the delimiter does not occur in any
/// header text or payload, and it occurs in the closing delimiter only at
/// its head, then it occurs in the whole body only where the writer put it.
pub proof fn lemma_occurrences_are_structural(boundary: Seq<char>, fields: Seq<FieldView>)
    requires
        boundary_crlf_free(boundary),
        forall|i: int|
            #[trigger] match_at(closing_bytes(boundary), delimiter_bytes(boundary), i) ==> i
                == 0,
        forall|k: int, j: int|
            0 <= k < fields.len() ==> !#[trigger] match_at(
                header_line_bytes(fields[k]),
                delimiter_bytes(boundary),
                j,
            ),
        forall|k: int, j: int|
            0 <= k < fields.len() ==> !#[trigger] match_at(
                fields[k].data,
                delimiter_bytes(boundary),
                j,
            ),
    ensures
        forall|i: int|
            match_at(body_bytes(boundary, fields), delimiter_bytes(boundary), i)
                ==> is_delimiter_offset(boundary, fields, i),
    decreases fields.len(),
{
    lemma_delimiter_literals();
    let w = body_bytes(boundary, fields);
    let dd = delimiter_bytes(boundary);
    if fields.len() == 0 {
        assert forall|i: int| match_at(w, dd, i) implies is_delimiter_offset(
            boundary,
            fields,
            i,
        ) by {
            assert(i == 0);
            assert(i == part_offset(boundary, fields, 0));
        }
    } else {
        let part = part_bytes(boundary, fields.first());
        let tail = body_bytes(boundary, fields.drop_first());
        assert(w == part + tail);
        assert(forall|k: int| 0 <= k < fields.drop_first().len()
            ==> #[trigger] fields.drop_first()[k] == fields[k + 1]);
        lemma_occurrences_are_structural(boundary, fields.drop_first());
        lemma_part_matches_only_at_head(boundary, fields.first());
        assert(w[part.len() - 1] == 10) by {
            assert(part[part.len() - 1] == 10) by {
                assert(part =~= header_bytes(boundary, fields.first()) + fields.first().data
                    + crlf());
            }
        }
        assert forall|i: int| match_at(w, dd, i) implies is_delimiter_offset(
            boundary,
            fields,
            i,
        ) by {
            if i + dd.len() <= part.len() {
                lemma_match_at_left(part, tail, dd, i);
                assert(match_at(part, dd, i));
                assert(i == 0);
                assert(i == part_offset(boundary, fields, 0));
            } else if i < part.len() {
                // the match would cover the LF that ends the part, and the
                // delimiter holds no LF
                lemma_match_at_index(w, dd, i, part.len() - 1 - i);
                assert(forall|t: int| 0 <= t < dd.len() ==> dd[t] != 10);
            } else {
                lemma_match_at_shift(part, tail, dd, i);
                assert(match_at(tail, dd, i - part.len()));
                assert(is_delimiter_offset(boundary, fields.drop_first(), i - part.len()));
                let k = choose|k: int|
                    0 <= k <= fields.drop_first().len() && i - part.len() == part_offset(
                        boundary,
                        fields.drop_first(),
                        k,
                    );
                assert(i == part_offset(boundary, fields, k + 1));
            }
        }
    }
}

/// Delimiter count, from the caller's own obligations: for a boundary free
/// of CR and LF whose delimiter does not fold into its own closing line, and
/// parts whose header texts and payloads hold no `"--" boundary`, the body
/// holds exactly one opening delimiter per part and one closing delimiter.
pub proof fn lemma_delimiter_count_of_parts(boundary: Seq<char>, fields: Seq<FieldView>)
    requires
        boundary_crlf_free(boundary),
        forall|i: int|
            #[trigger] match_at(closing_bytes(boundary), delimiter_bytes(boundary), i) ==> i
                == 0,
        forall|k: int, j: int|
            0 <= k < fields.len() ==> !#[trigger] match_at(
                header_line_bytes(fields[k]),
                delimiter_bytes(boundary),
                j,
            ),
        forall|k: int, j: int|
            0 <= k < fields.len() ==> !#[trigger] match_at(
                fields[k].data,
                delimiter_bytes(boundary),
                j,
            ),
    ensures
        count_matches(body_bytes(boundary, fields), opening_bytes(boundary)) == fields.len(),
        count_matches(body_bytes(boundary, fields), closing_bytes(boundary)) == 1,
{
    lemma_occurrences_are_structural(boundary, fields);
    lemma_delimiter_count(boundary, fields);
}

} // verus!
