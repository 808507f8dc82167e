//! Parse the HTTP `Accept-Encoding` request header into the client's
//! compression-encoding preference.
//!
//! The header is a comma-separated list of directives, each an encoding
//! token with an optional quality value (`gzip;q=0.5`). [`parse`] reduces
//! the directives of all `Accept-Encoding` occurrences in a header map to
//! the single preferred [`Encoding`], and [`encodings`] returns the full
//! list in encounter order. Quality values are kept as integer
//! thousandths ([`Quality`]), following the three-decimal q-value grammar
//! of RFC 7231.

use vstd::prelude::*;

pub mod directives;
pub mod encoding;
pub mod error;
pub mod headers;
pub mod quality;
pub mod scan;
pub mod select;

pub use crate::directives::{headers_result, Directive};
pub use crate::encoding::{lemma_token_round_trip, token_code, Encoding};
pub use crate::error::{Error, ErrorKind};
pub use crate::headers::accept_encoding_values;
pub use crate::quality::Quality;
pub use crate::select::selected;

verus! {

/// What `encodings` returns for given header values: the directive list
/// in encounter order, or an `InvalidEncoding` error.
pub open spec fn encodings_spec(vals: Seq<Seq<u8>>) -> Result<Seq<Directive>, Error> {
    match headers_result(vals) {
        Ok(ds) => Ok(ds),
        Err(()) => Err(Error { kind: ErrorKind::InvalidEncoding }),
    }
}

/// What `parse` returns for given header values: the preferred encoding
/// under the selection fold, or an `InvalidEncoding` error.
pub open spec fn parse_spec(vals: Seq<Seq<u8>>) -> Result<Option<Encoding>, Error> {
    match headers_result(vals) {
        Ok(ds) => Ok(selected(ds)),
        Err(()) => Err(Error { kind: ErrorKind::InvalidEncoding }),
    }
}

/// Parse a set of HTTP headers into a vector of directives: each a
/// possibly-wildcard encoding (`None` is the wildcard `*`) with its
/// quality, in encounter order across all `Accept-Encoding` occurrences.
///
/// Unknown tokens contribute no directive; a malformed or out-of-range
/// quality value, or a header value that is not visible ASCII, is a hard
/// `InvalidEncoding` error.
pub fn encodings(headers: &http::HeaderMap) -> (r: Result<Vec<Directive>, Error>)
    ensures
        match encodings_spec(accept_encoding_values(*headers)) {
            Ok(ds) => r matches Ok(v) && v@ == ds,
            Err(e) => r == Err::<Vec<Directive>, Error>(e),
        },
{
    let vals = crate::headers::accept_encoding_bytes(headers);
    let mut acc: Vec<Directive> = Vec::new();
    proof {
        assert(vals.deep_view().skip(0) =~= vals.deep_view());
    }
    if crate::directives::parse_values(&vals, 0, &mut acc) {
        proof {
            if let Ok(ds) = headers_result(vals.deep_view()) {
                assert(Seq::<Directive>::empty() + ds =~= ds);
            }
        }
        Ok(acc)
    } else {
        Err(Error { kind: ErrorKind::InvalidEncoding })
    }
}

/// Parse a set of HTTP headers into the single encoding the client
/// prefers.
///
/// `Ok(None)` means no concrete preference is expressed: the header is
/// absent, or the wildcard `*` won the selection. The first directive
/// whose quality is at least `0.99` is selected at once; otherwise the
/// first directive with the strictly highest quality wins, and `None`
/// stays where no directive beats quality zero.
pub fn parse(headers: &http::HeaderMap) -> (r: Result<Option<Encoding>, Error>)
    ensures
        r == parse_spec(accept_encoding_values(*headers)),
{
    let list = match encodings(headers) {
        Ok(list) => list,
        Err(e) => {
            return Err(e);
        },
    };
    let ghost ds = list@;
    proof {
        assert(ds.skip(0) =~= ds);
    }
    let mut best: Option<Encoding> = None;
    let mut best_q: u16 = 0;
    let mut i: usize = 0;
    while i < list.len()
        invariant
            i <= list.len(),
            list@ == ds,
            parse_spec(accept_encoding_values(*headers)) == Ok::<Option<Encoding>, Error>(
                selected(ds),
            ),
            selected(ds) == crate::select::select_from(ds.skip(i as int), best, best_q as int),
        decreases list.len() - i,
    {
        let (e, q) = list[i];
        proof {
            assert(ds.skip(i as int)[0] == ds[i as int]);
            assert(ds.skip(i as int).drop_first() =~= ds.skip(i as int + 1));
        }
        if q.thousandths >= 990 {
            return Ok(e);
        } else if q.thousandths > best_q {
            best = e;
            best_q = q.thousandths;
        }
        i = i + 1;
    }
    proof {
        assert(ds.skip(i as int) =~= Seq::<Directive>::empty());
    }
    Ok(best)
}

/// An absent header is never an error and expresses no preference: with
/// no `Accept-Encoding` occurrences, `encodings` returns the empty list
/// and `parse` returns no concrete pick.
pub proof fn lemma_absent_header_accepted()
    ensures
        parse_spec(Seq::empty()) == Ok::<Option<Encoding>, Error>(None::<Encoding>),
        encodings_spec(Seq::empty()) == Ok::<Seq<Directive>, Error>(Seq::<Directive>::empty()),
{
}

/// A header that is exactly one recognized concrete token, with no
/// quality parameter, selects that token's encoding.
pub proof fn lemma_single_token_header(t: Seq<u8>, e: Encoding)
    requires
        token_code(t) == Some(Some(e)),
    ensures
        parse_spec(seq![t]) == Ok::<Option<Encoding>, Error>(Some(e)),
{
    crate::select::lemma_single_token_selected(t, Some(e));
}

/// A header value listing several encodings with no quality parameters
/// parses to directives that all carry implicit full quality, and the
/// first listed encoding wins the selection.
pub proof fn lemma_first_listed_wins(v: Seq<u8>, ds: Seq<Directive>)
    requires
        crate::directives::value_ok(v),
        crate::directives::value_directives(v) == Ok::<Seq<Directive>, ()>(ds),
        ds.len() > 0,
        forall|i: int|
            0 <= i < ds.len() ==> #[trigger] ds[i].1 == crate::quality::full_quality(),
    ensures
        parse_spec(seq![v]) == Ok::<Option<Encoding>, Error>(ds[0].0),
{
    let vals = seq![v];
    assert(vals[0] == v);
    assert(vals.drop_first() =~= Seq::<Seq<u8>>::empty());
    assert(headers_result(Seq::<Seq<u8>>::empty()) == Ok::<Seq<Directive>, ()>(
        Seq::<Directive>::empty(),
    ));
    assert(ds + Seq::<Directive>::empty() =~= ds);
    assert(ds[0].1 == crate::quality::full_quality());
    crate::select::lemma_first_full_quality_wins(ds, None, 0);
}

/// Parsing is pure: the contracts of `parse` and `encodings` pin each
/// result as a function of the header bytes alone, so parsing the same
/// header values twice yields identical results.
pub proof fn lemma_parse_idempotent(vals1: Seq<Seq<u8>>, vals2: Seq<Seq<u8>>)
    requires
        vals1 == vals2,
    ensures
        parse_spec(vals1) == parse_spec(vals2),
        encodings_spec(vals1) == encodings_spec(vals2),
{
}

} // verus!
