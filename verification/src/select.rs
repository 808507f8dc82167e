//! The preference selector: folds a directive list into the single
//! preferred encoding, and the laws that the fold obeys.

use vstd::prelude::*;

use crate::directives::{headers_result, segment_result, value_directives, value_ok, Directive};
use crate::encoding::{token_code, Encoding};
use crate::quality::{full_quality, lemma_qvalue_nonneg, qvalue_thousandths};
use crate::scan::{first_index, first_qsep, trimmed};

verus! {

/// The selection fold over the remaining directives, carrying the best
/// pick so far and its quality. A directive whose quality is at least
/// `0.99` is selected at once; otherwise the first directive with the
/// strictly highest quality wins.
pub open spec fn select_from(ds: Seq<Directive>, best: Option<Encoding>, best_q: int) -> Option<
    Encoding,
>
    decreases ds.len(),
{
    if ds.len() == 0 {
        best
    } else if ds[0].1.thousandths >= 990 {
        ds[0].0
    } else if ds[0].1.thousandths > best_q {
        select_from(ds.drop_first(), ds[0].0, ds[0].1.thousandths as int)
    } else {
        select_from(ds.drop_first(), best, best_q)
    }
}

/// What the whole directive list selects, starting from no preference.
pub open spec fn selected(ds: Seq<Directive>) -> Option<Encoding> {
    select_from(ds, None, 0)
}

/// A header that is one recognized token with no quality parses to that
/// token's directive at full quality, and selects its encoding.
pub proof fn lemma_single_token_selected(t: Seq<u8>, e: Option<Encoding>)
    requires
        token_code(t) == Some(e),
    ensures
        headers_result(seq![t]) == Ok::<Seq<Directive>, ()>(seq![(e, full_quality())]),
        selected(seq![(e, full_quality())]) == e,
{
    lemma_token_text_plain(t);
    crate::scan::lemma_first_index_props(t, ',' as u8);
    crate::scan::lemma_first_qsep_props(t);
    assert(trimmed(t) == t) by {
        crate::scan::lemma_trim_start_skip(t, 0);
        assert(t.skip(0) =~= t);
        crate::scan::lemma_trim_end_take(t, t.len() as int);
        assert(t.take(t.len() as int) =~= t);
    }
    assert(value_directives(t) == Ok::<Seq<Directive>, ()>(seq![(e, full_quality())]));
    let vals = seq![t];
    assert(vals[0] == t);
    assert(crate::directives::value_ok(t));
    assert(vals.drop_first() =~= Seq::<Seq<u8>>::empty());
    assert(headers_result(Seq::<Seq<u8>>::empty()) == Ok::<Seq<Directive>, ()>(
        Seq::<Directive>::empty(),
    ));
    let ds = seq![(e, full_quality())];
    assert(ds + Seq::<Directive>::empty() =~= ds);
    assert(ds.drop_first() =~= Seq::<Directive>::empty());
}

/// Every recognized token is plain text: no comma, no `;q=`, no
/// surrounding whitespace, only visible ASCII.
proof fn lemma_token_text_plain(t: Seq<u8>)
    requires
        token_code(t) is Some,
    ensures
        forall|j: int| 0 <= j < t.len() ==> #[trigger] t[j] != ',' as u8,
        forall|j: int| !crate::scan::qsep_at(t, j),
        t.len() > 0,
        !crate::scan::is_ows(t[0]),
        !crate::scan::is_ows(t[t.len() - 1]),
        crate::directives::value_ok(t),
{
    assert(forall|j: int| 0 <= j < t.len() ==> #[trigger] t[j] != ';' as u8);
    assert(forall|j: int|
        crate::scan::qsep_at(t, j) ==> t[j] == ';' as u8 && 0 <= j < t.len());
}

/// The first directive of full-enough quality short-circuits: whatever
/// follows it, its encoding is selected. In particular, where no
/// directive carries a `q` parameter, every quality is implicitly full
/// and the first directive wins.
pub proof fn lemma_first_full_quality_wins(ds: Seq<Directive>, best: Option<Encoding>, best_q: int)
    requires
        ds.len() > 0,
        ds[0].1.thousandths >= 990,
    ensures
        select_from(ds, best, best_q) == ds[0].0,
{
}

/// A segment of a recognized token with no `;q=` parameter contributes a
/// directive at implicit full quality.
pub proof fn lemma_implicit_quality_is_full(seg: Seq<u8>, e: Option<Encoding>)
    requires
        first_qsep(seg) == None::<int>,
        token_code(seg) == Some(e),
    ensures
        segment_result(seg) == Ok::<Option<Directive>, ()>(Some((e, full_quality()))),
{
}

/// A quality value above one is a hard error: the whole segment is
/// rejected, whatever its token.
pub proof fn lemma_quality_above_one_rejected(seg: Seq<u8>, i: int, e: Option<Encoding>)
    requires
        first_qsep(seg) == Some(i),
        token_code(seg.take(i)) == Some(e),
        match qvalue_thousandths(seg.skip(i + 3)) {
            Some(v) => v > 1000,
            None => false,
        },
    ensures
        segment_result(seg) == Err::<Option<Directive>, ()>(()),
{
}

/// Selection never invents a concrete encoding: where every directive is
/// the wildcard and the best so far is no concrete pick, the result is
/// still no concrete pick.
pub proof fn lemma_wildcard_never_concrete(ds: Seq<Directive>, best_q: int)
    requires
        forall|i: int| 0 <= i < ds.len() ==> #[trigger] ds[i].0 is None,
    ensures
        select_from(ds, None, best_q) == None::<Encoding>,
    decreases ds.len(),
{
    if ds.len() > 0 {
        assert(ds[0].0 is None);
        assert(forall|i: int|
            0 <= i < ds.drop_first().len() ==> #[trigger] ds.drop_first()[i].0 is None);
        if ds[0].1.thousandths >= 990 {
        } else if ds[0].1.thousandths > best_q {
            lemma_wildcard_never_concrete(ds.drop_first(), ds[0].1.thousandths as int);
        } else {
            lemma_wildcard_never_concrete(ds.drop_first(), best_q);
        }
    }
}

/// Every quality that the parser emits is at most one: all directives of
/// a successfully parsed header set lie in `[0, 1000]` thousandths.
pub proof fn lemma_quality_in_range(vals: Seq<Seq<u8>>)
    ensures
        match headers_result(vals) {
            Ok(ds) => forall|i: int| 0 <= i < ds.len() ==> #[trigger] ds[i].1.thousandths <= 1000,
            Err(()) => true,
        },
    decreases vals.len(),
{
    if vals.len() > 0 {
        if value_ok(vals[0]) {
            lemma_value_quality_in_range(vals[0]);
            lemma_quality_in_range(vals.drop_first());
        }
    }
}

/// Every quality of one header value's directives is at most one.
proof fn lemma_value_quality_in_range(s: Seq<u8>)
    ensures
        match value_directives(s) {
            Ok(ds) => forall|i: int| 0 <= i < ds.len() ==> #[trigger] ds[i].1.thousandths <= 1000,
            Err(()) => true,
        },
    decreases s.len(),
{
    crate::scan::lemma_first_index_props(s, ',' as u8);
    match first_index(s, ',' as u8) {
        None => {
            lemma_segment_quality_in_range(trimmed(s));
        },
        Some(i) => {
            lemma_segment_quality_in_range(trimmed(s.take(i)));
            lemma_value_quality_in_range(s.skip(i + 1));
        },
    }
}

/// The quality of the directive a segment contributes is at most one.
proof fn lemma_segment_quality_in_range(seg: Seq<u8>)
    ensures
        match segment_result(seg) {
            Ok(Some(d)) => d.1.thousandths <= 1000,
            _ => true,
        },
{
    match first_qsep(seg) {
        None => {
        },
        Some(i) => {
            lemma_qvalue_nonneg(seg.skip(i + 3));
        },
    }
}

} // verus!
