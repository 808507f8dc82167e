//! The closed set of recognized compression encodings and the mapping
//! between encodings and their header tokens.

use vstd::prelude::*;
use vstd::string::StringSliceAdditionalSpecFns;

use crate::error::{Error, ErrorKind};

verus! {

/// Encodings to use.
#[derive(Clone, Copy, Debug, PartialEq, Eq, Structural)]
pub enum Encoding {
    /// The Gzip encoding.
    Gzip,
    /// The Deflate encoding.
    Deflate,
    /// The Brotli encoding.
    Brotli,
    /// The Zstd encoding.
    Zstd,
    /// No encoding.
    Identity,
}

/// The canonical header token of an encoding, as bytes.
pub open spec fn token_bytes(e: Encoding) -> Seq<u8> {
    match e {
        Encoding::Gzip => seq!['g' as u8, 'z' as u8, 'i' as u8, 'p' as u8],
        Encoding::Deflate => seq!['d' as u8, 'e' as u8, 'f' as u8, 'l' as u8, 'a' as u8, 't' as u8, 'e' as u8],
        Encoding::Brotli => seq!['b' as u8, 'r' as u8],
        Encoding::Zstd => seq!['z' as u8, 's' as u8, 't' as u8, 'd' as u8],
        Encoding::Identity => seq!['i' as u8, 'd' as u8, 'e' as u8, 'n' as u8, 't' as u8, 'i' as u8, 't' as u8, 'y' as u8],
    }
}

/// The wildcard token `*`, as bytes.
pub open spec fn wildcard_bytes() -> Seq<u8> {
    seq!['*' as u8]
}

/// What a token names: `Some(Some(e))` for the token of a concrete
/// encoding, `Some(None)` for the wildcard `*`, and `None` for anything
/// else. Matching is exact and case-sensitive.
pub open spec fn token_code(t: Seq<u8>) -> Option<Option<Encoding>> {
    if t == token_bytes(Encoding::Gzip) {
        Some(Some(Encoding::Gzip))
    } else if t == token_bytes(Encoding::Deflate) {
        Some(Some(Encoding::Deflate))
    } else if t == token_bytes(Encoding::Brotli) {
        Some(Some(Encoding::Brotli))
    } else if t == token_bytes(Encoding::Zstd) {
        Some(Some(Encoding::Zstd))
    } else if t == token_bytes(Encoding::Identity) {
        Some(Some(Encoding::Identity))
    } else if t == wildcard_bytes() {
        Some(None)
    } else {
        None
    }
}

/// What the strict single-token parser returns for a token.
pub open spec fn token_result(t: Seq<u8>) -> Result<Option<Encoding>, Error> {
    match token_code(t) {
        Some(e) => Ok(e),
        None => Err(Error { kind: ErrorKind::UnknownEncoding }),
    }
}

/// Looks a byte string up in the recognized token set.
pub(crate) fn token_lookup(t: &[u8]) -> (r: Option<Option<Encoding>>)
    ensures
        r == token_code(t@),
{
    let n = t.len();
    if n == 4 && t[0] == 'g' as u8 && t[1] == 'z' as u8 && t[2] == 'i' as u8 && t[3] == 'p' as u8 {
        proof {
            assert(t@ =~= token_bytes(Encoding::Gzip));
        }
        Some(Some(Encoding::Gzip))
    } else if n == 7 && t[0] == 'd' as u8 && t[1] == 'e' as u8 && t[2] == 'f' as u8 && t[3] == 'l' as u8 && t[4]
        == 'a' as u8 && t[5] == 't' as u8 && t[6] == 'e' as u8 {
        proof {
            assert(t@ =~= token_bytes(Encoding::Deflate));
        }
        Some(Some(Encoding::Deflate))
    } else if n == 2 && t[0] == 'b' as u8 && t[1] == 'r' as u8 {
        proof {
            assert(t@ =~= token_bytes(Encoding::Brotli));
        }
        Some(Some(Encoding::Brotli))
    } else if n == 4 && t[0] == 'z' as u8 && t[1] == 's' as u8 && t[2] == 't' as u8 && t[3] == 'd' as u8 {
        proof {
            assert(t@ =~= token_bytes(Encoding::Zstd));
        }
        Some(Some(Encoding::Zstd))
    } else if n == 8 && t[0] == 'i' as u8 && t[1] == 'd' as u8 && t[2] == 'e' as u8 && t[3] == 'n' as u8 && t[4]
        == 't' as u8 && t[5] == 'i' as u8 && t[6] == 't' as u8 && t[7] == 'y' as u8 {
        proof {
            assert(t@ =~= token_bytes(Encoding::Identity));
        }
        Some(Some(Encoding::Identity))
    } else if n == 1 && t[0] == '*' as u8 {
        proof {
            assert(t@ =~= wildcard_bytes());
        }
        Some(None)
    } else {
        None
    }
}

impl Encoding {
    /// Converts the encoding into its corresponding header value: the
    /// canonical token, as `Content-Encoding` would carry it.
    pub fn to_header_value(self) -> (r: http::HeaderValue)
        ensures
            crate::headers::header_value_bytes(r) == token_bytes(self),
    {
        match self {
            Encoding::Gzip => {
                proof {
                    reveal_strlit("gzip");
                }
                let r = crate::headers::header_value_from_static("gzip");
                proof {
                    assert(crate::headers::header_value_bytes(r) =~= token_bytes(self));
                }
                r
            },
            Encoding::Deflate => {
                proof {
                    reveal_strlit("deflate");
                }
                let r = crate::headers::header_value_from_static("deflate");
                proof {
                    assert(crate::headers::header_value_bytes(r) =~= token_bytes(self));
                }
                r
            },
            Encoding::Brotli => {
                proof {
                    reveal_strlit("br");
                }
                let r = crate::headers::header_value_from_static("br");
                proof {
                    assert(crate::headers::header_value_bytes(r) =~= token_bytes(self));
                }
                r
            },
            Encoding::Zstd => {
                proof {
                    reveal_strlit("zstd");
                }
                let r = crate::headers::header_value_from_static("zstd");
                proof {
                    assert(crate::headers::header_value_bytes(r) =~= token_bytes(self));
                }
                r
            },
            Encoding::Identity => {
                proof {
                    reveal_strlit("identity");
                }
                let r = crate::headers::header_value_from_static("identity");
                proof {
                    assert(crate::headers::header_value_bytes(r) =~= token_bytes(self));
                }
                r
            },
        }
    }

    /// Parses a given string into its corresponding encoding: `Ok(Some(_))`
    /// for the token of a concrete encoding, `Ok(None)` for the wildcard
    /// `*`, and an `UnknownEncoding` error for anything else.
    pub fn parse(s: &str) -> (r: Result<Option<Encoding>, Error>)
        ensures
            r == token_result(s.spec_bytes()),
    {
        token_lookup(s.as_bytes()).ok_or(Error { kind: ErrorKind::UnknownEncoding })
    }
}

/// Round trip: the canonical token of every concrete encoding parses
/// back to exactly that encoding, both as a token code and through the
/// strict single-token parser.
pub proof fn lemma_token_round_trip(e: Encoding)
    ensures
        token_code(token_bytes(e)) == Some(Some(e)),
        token_result(token_bytes(e)) == Ok::<Option<Encoding>, Error>(Some(e)),
{
}

} // verus!
