//! The directive parser: one header value is a comma-separated list of
//! segments, each an encoding token with an optional `;q=` quality.

use vstd::prelude::*;
use vstd::slice::slice_subrange;

use crate::encoding::{token_code, token_lookup, Encoding};
use crate::quality::{full_quality, parse_qvalue, qvalue_result, Quality};
use crate::scan::{
    find_byte, find_qsep, first_index, first_qsep, lemma_first_index_props, trim_bounds, trimmed,
};

verus! {

/// One parsed directive: a possibly-wildcard encoding (`None` is the
/// wildcard `*`) and its quality.
pub type Directive = (Option<Encoding>, Quality);

/// What one trimmed segment contributes: a directive, nothing (an unknown
/// token, dropped silently), or a hard error for a malformed or
/// out-of-range quality value.
pub open spec fn segment_result(seg: Seq<u8>) -> Result<Option<Directive>, ()> {
    match first_qsep(seg) {
        None => match token_code(seg) {
            None => Ok(None),
            Some(enc) => Ok(Some((enc, full_quality()))),
        },
        Some(i) => match token_code(seg.take(i)) {
            None => Ok(None),
            Some(enc) => match qvalue_result(seg.skip(i + 3)) {
                Some(q) => Ok(Some((enc, Quality { thousandths: q }))),
                None => Err(()),
            },
        },
    }
}

/// The directives of one header value: comma-split segments, each trimmed
/// and parsed in order, with a malformed quality value aborting the whole
/// value.
pub open spec fn value_directives(s: Seq<u8>) -> Result<Seq<Directive>, ()>
    decreases s.len(),
    via value_directives_decreases
{
    match first_index(s, ',' as u8) {
        None => match segment_result(trimmed(s)) {
            Err(()) => Err(()),
            Ok(None) => Ok(Seq::empty()),
            Ok(Some(d)) => Ok(seq![d]),
        },
        Some(i) => match segment_result(trimmed(s.take(i))) {
            Err(()) => Err(()),
            Ok(opt) => match value_directives(s.skip(i + 1)) {
                Err(()) => Err(()),
                Ok(rest) => Ok(
                    match opt {
                        None => rest,
                        Some(d) => seq![d] + rest,
                    },
                ),
            },
        },
    }
}

#[via_fn]
proof fn value_directives_decreases(s: Seq<u8>) {
    lemma_first_index_props(s, ',' as u8);
}

/// A byte that a header value may hold for the parser to accept it:
/// visible ASCII or horizontal tab.
pub open spec fn is_visible_ascii(b: u8) -> bool {
    (32 <= b && b < 127) || b == 9
}

/// Every byte of the header value is visible ASCII or tab.
pub open spec fn value_ok(s: Seq<u8>) -> bool {
    forall|i: int| 0 <= i < s.len() ==> is_visible_ascii(#[trigger] s[i])
}

/// The directives of all header occurrences, concatenated in order, or a
/// hard error where some value holds non-ASCII bytes or a malformed
/// quality value.
pub open spec fn headers_result(vals: Seq<Seq<u8>>) -> Result<Seq<Directive>, ()>
    decreases vals.len(),
{
    if vals.len() == 0 {
        Ok(Seq::empty())
    } else if !value_ok(vals[0]) {
        Err(())
    } else {
        match value_directives(vals[0]) {
            Err(()) => Err(()),
            Ok(ds) => match headers_result(vals.drop_first()) {
                Err(()) => Err(()),
                Ok(rest) => Ok(ds + rest),
            },
        }
    }
}

/// Parses one already-trimmed segment.
fn parse_segment(seg: &[u8]) -> (r: Result<Option<Directive>, ()>)
    ensures
        r == segment_result(seg@),
{
    match find_qsep(seg) {
        None => match token_lookup(seg) {
            None => Ok(None),
            Some(enc) => Ok(Some((enc, Quality { thousandths: 1000 }))),
        },
        Some(i) => {
            let tok = slice_subrange(seg, 0, i);
            proof {
                assert(tok@ =~= seg@.take(i as int));
            }
            match token_lookup(tok) {
                None => Ok(None),
                Some(enc) => {
                    let qs = slice_subrange(seg, i + 3, seg.len());
                    proof {
                        assert(qs@ =~= seg@.skip(i as int + 3));
                    }
                    match parse_qvalue(qs) {
                        Some(q) => Ok(Some((enc, Quality { thousandths: q }))),
                        None => Err(()),
                    }
                },
            }
        },
    }
}

/// Parses one header value, appending its directives to `acc` in order.
fn parse_value(v: &[u8], acc: &mut Vec<Directive>) -> (ok: bool)
    ensures
        match value_directives(v@) {
            Ok(ds) => ok && final(acc)@ == old(acc)@ + ds,
            Err(()) => !ok,
        },
    decreases v@.len(),
{
    let n = v.len();
    let comma = find_byte(v, ',' as u8);
    proof {
        lemma_first_index_props(v@, ',' as u8);
    }
    let end = match comma {
        Some(i) => i,
        None => n,
    };
    let seg = slice_subrange(v, 0, end);
    let tb = trim_bounds(seg);
    let core = slice_subrange(seg, tb.0, tb.1);
    let sr = parse_segment(core);
    proof {
        match comma {
            Some(i) => {
                assert(seg@ =~= v@.take(i as int));
            },
            None => {
                assert(seg@ =~= v@);
            },
        }
    }
    let ghost ds0: Seq<Directive> = match sr {
        Ok(None) => Seq::empty(),
        Ok(Some(d)) => seq![d],
        Err(()) => Seq::empty(),
    };
    match sr {
        Err(()) => false,
        Ok(opt) => {
            match opt {
                Some(d) => {
                    acc.push(d);
                    proof {
                        assert(acc@ =~= old(acc)@ + ds0);
                    }
                },
                None => {
                    proof {
                        assert(acc@ =~= old(acc)@ + ds0);
                    }
                },
            }
            match comma {
                None => true,
                Some(i) => {
                    let ghost mid = acc@;
                    let rest = slice_subrange(v, i + 1, n);
                    proof {
                        assert(rest@ =~= v@.skip(i as int + 1));
                    }
                    let ok = parse_value(rest, acc);
                    proof {
                        if let Ok(rest_ds) = value_directives(v@.skip(i as int + 1)) {
                            assert(old(acc)@ + ds0 + rest_ds =~= old(acc)@ + (ds0 + rest_ds));
                        }
                    }
                    ok
                },
            }
        },
    }
}

/// Parses the header values from `idx` on, appending their directives.
pub(crate) fn parse_values(vals: &Vec<Vec<u8>>, idx: usize, acc: &mut Vec<Directive>) -> (ok: bool)
    requires
        idx <= vals@.len(),
    ensures
        match headers_result(vals.deep_view().skip(idx as int)) {
            Ok(ds) => ok && final(acc)@ == old(acc)@ + ds,
            Err(()) => !ok,
        },
    decreases vals@.len() - idx,
{
    let ghost vseq = vals.deep_view();
    if idx == vals.len() {
        proof {
            assert(vseq.skip(idx as int) =~= Seq::<Seq<u8>>::empty());
            assert(acc@ =~= acc@ + Seq::<Directive>::empty());
        }
        return true;
    }
    let v: &Vec<u8> = &vals[idx];
    proof {
        assert(vseq[idx as int] =~= v@);
        assert(vseq.skip(idx as int)[0] == vseq[idx as int]);
        assert(vseq.skip(idx as int).drop_first() =~= vseq.skip(idx as int + 1));
    }
    let n = v.len();
    let mut k: usize = 0;
    while k < n
        invariant
            k <= n == v@.len(),
            idx < vseq.len(),
            vseq == vals.deep_view(),
            vseq.skip(idx as int)[0] == v@,
            forall|j: int| 0 <= j < k ==> is_visible_ascii(#[trigger] v@[j]),
        decreases n - k,
    {
        let b = v[k];
        if !((32 <= b && b < 127) || b == 9) {
            proof {
                assert(!is_visible_ascii(v@[k as int]));
                assert(!value_ok(vseq.skip(idx as int)[0]));
            }
            return false;
        }
        k = k + 1;
    }
    proof {
        assert(value_ok(vseq.skip(idx as int)[0]));
    }
    if !parse_value(v.as_slice(), acc) {
        return false;
    }
    let ghost mid = acc@;
    let ok = parse_values(vals, idx + 1, acc);
    proof {
        if let Ok(ds) = value_directives(v@) {
            if let Ok(rest) = headers_result(vseq.skip(idx as int + 1)) {
                assert(old(acc)@ + ds + rest =~= old(acc)@ + (ds + rest));
            }
        }
    }
    ok
}

} // verus!
