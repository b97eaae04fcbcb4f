//! Urlencoded form extraction: the decisions around reading an
//! `application/x-www-form-urlencoded` request body — content-type check,
//! declared-length check, size limit while buffering — and the decoding of
//! the body into key/value pairs through `serde_urlencoded`.

use vstd::prelude::*;
use vstd::slice::slice_subrange;

use crate::error::UrlencodedError;
use crate::wire::{ascii_bytes, dec_val, eq_ci, eq_ignore_case, find_byte, lit_bytes, parse_dec,
    scan_byte, all_digits};

verus! {

/// Extract typed information from a request's body: a transparent wrapper
/// around the extracted value.
pub struct Form<T>(pub T);

impl<T> Form<T> {
    /// Deconstruct to the inner value.
    pub fn into_inner(self) -> (r: T)
        ensures
            r == self.0,
    {
        self.0
    }
}

/// Form extractor configuration: the maximum payload size.
pub struct FormConfig {
    limit: usize,
}

impl FormConfig {
    /// The configured maximum payload size.
    pub closed spec fn limit_spec(&self) -> usize {
        self.limit
    }

    /// Change the maximum payload size.
    pub fn limit(self, limit: usize) -> (r: FormConfig)
        ensures
            r.limit_spec() == limit,
    {
        FormConfig { limit }
    }

    /// Read the maximum payload size.
    pub fn max_size(&self) -> (r: usize)
        ensures
            r == self.limit_spec(),
    {
        self.limit
    }
}

impl Default for FormConfig {
    /// By default the payload may hold sixteen kibibytes.
    fn default() -> (r: FormConfig)
        ensures
            r.limit_spec() == 16384,
    {
        FormConfig { limit: 16384 }
    }
}

/// The media type of a content-type header value: everything before the
/// first `;`, which starts the parameter section.
pub open spec fn media_type_of(ct: Seq<u8>) -> Seq<u8> {
    match find_byte(ct, 59, 0, ct.len() as int) {
        Some(i) => ct.subrange(0, i),
        None => ct,
    }
}

/// Whether a content-type announces a urlencoded form body.
pub open spec fn is_urlencoded_content_type(ct: Seq<u8>) -> bool {
    eq_ci(media_type_of(ct), ascii_bytes("application/x-www-form-urlencoded"@))
}

/// What the pre-checks of reading a form body decide: the declared length,
/// when one was given. A declared charset must name UTF-8 -- the only
/// encoding bodies are decoded as here -- or the content type is refused.
pub open spec fn precheck_spec(ct: Seq<u8>, cl: Option<Seq<u8>>, limit: usize) -> Result<
    Option<usize>,
    UrlencodedError,
> {
    if !is_urlencoded_content_type(ct) {
        Err(UrlencodedError::ContentType)
    } else if charset_of(ct) matches Some(label) && !is_utf8_charset(label) {
        Err(UrlencodedError::ContentType)
    } else {
        match cl {
            None => Ok(Option::<usize>::None),
            Some(v) => if !(v.len() > 0 && all_digits(v) && dec_val(v) <= usize::MAX) {
                Err(UrlencodedError::UnknownLength)
            } else if dec_val(v) > limit {
                Err(UrlencodedError::Overflow { size: dec_val(v) as usize, limit })
            } else {
                Ok(Some(dec_val(v) as usize))
            },
        }
    }
}

/// Check a request before its form body is read: the content type must be
/// `application/x-www-form-urlencoded`, a declared charset must name UTF-8,
/// the declared content length must be a readable number, and it must stay
/// within the limit; mirrors `precheck_spec`.
pub fn urlencoded_precheck(content_type: &[u8], content_length: Option<&[u8]>, limit: usize) -> (r:
    Result<Option<usize>, UrlencodedError>)
    ensures
        ({
            let clv = match content_length {
                Some(v) => Some(v@),
                None => Option::<Seq<u8>>::None,
            };
            match r {
                Ok(l) => precheck_spec(content_type@, clv, limit) == Ok::<
                    Option<usize>,
                    UrlencodedError,
                >(l),
                Err(e) => precheck_spec(content_type@, clv, limit) == Err::<
                    Option<usize>,
                    UrlencodedError,
                >(e),
            }
        }),
{
    let n = content_type.len();
    let media_end = match scan_byte(content_type, 59, 0, n) {
        Some(i) => i,
        None => n,
    };
    let media = slice_subrange(content_type, 0, media_end);
    proof {
        reveal_strlit("application/x-www-form-urlencoded");
        assert(media@ == media_type_of(content_type@));
    }
    let expected = lit_bytes("application/x-www-form-urlencoded");
    if !eq_ignore_case(media, expected.as_slice()) {
        return Err(UrlencodedError::ContentType);
    }
    match scan_charset(content_type) {
        Some(label) => {
            if !check_utf8_charset(label.as_slice()) {
                return Err(UrlencodedError::ContentType);
            }
        },
        None => {},
    }
    match content_length {
        None => Ok(Option::<usize>::None),
        Some(v) => {
            let ghost vv = v@;
            proof {
                assert(vv.subrange(0, vv.len() as int) =~= vv);
            }
            match parse_dec(v, 0, v.len()) {
                None => Err(UrlencodedError::UnknownLength),
                Some(len) => {
                    if len > usize::MAX as u64 {
                        return Err(UrlencodedError::UnknownLength);
                    }
                    let len = len as usize;
                    if len > limit {
                        Err(UrlencodedError::Overflow { size: len, limit })
                    } else {
                        Ok(Some(len))
                    }
                },
            }
        },
    }
}

/// Append one payload chunk to the buffered body, refusing to grow past the
/// limit.
pub fn urlencoded_feed(body: &mut Vec<u8>, chunk: &[u8], limit: usize) -> (r: Result<
    (),
    UrlencodedError,
>)
    ensures
        ({
            if old(body)@.len() + chunk@.len() > limit {
                r matches Err(UrlencodedError::Overflow { size, limit: l }) && l == limit
                    && final(body)@ == old(body)@
            } else {
                r is Ok && final(body)@ == old(body)@ + chunk@
            }
        }),
{
    let blen = body.len();
    let clen = chunk.len();
    if clen > limit || blen > limit - clen {
        return Err(
            UrlencodedError::Overflow {
                size: if blen > usize::MAX - clen {
                    usize::MAX
                } else {
                    blen + clen
                },
                limit,
            },
        );
    }
    body.extend_from_slice(chunk);
    Ok(())
}

/// The key/value pairs a urlencoded body decodes to, or nothing when the
/// body is not valid urlencoded data. A function of the bytes alone.
pub uninterp spec fn urldecoded_pairs(body: Seq<u8>) -> Option<Seq<(Seq<char>, Seq<char>)>>;

/// Relies on `serde_urlencoded::from_bytes`: decoding a urlencoded body into
/// its key/value pairs is deterministic in the bytes alone.
#[verifier::external_body]
fn decode_pairs_raw(body: &[u8]) -> (r: Option<Vec<(String, String)>>)
    ensures
        match urldecoded_pairs(body@) {
            Some(ps) => r matches Some(v) && v@.map_values(
                |kv: (String, String)| (kv.0@, kv.1@),
            ) == ps,
            None => r is None,
        },
{
    serde_urlencoded::from_bytes::<Vec<(String, String)>>(body).ok()
}

/// Decode a buffered form body into its key/value pairs; a body that is not
/// valid urlencoded data is a parse error.
pub fn parse_urlencoded(body: &[u8]) -> (r: Result<Vec<(String, String)>, UrlencodedError>)
    ensures
        match urldecoded_pairs(body@) {
            Some(ps) => r matches Ok(v) && v@.map_values(|kv: (String, String)| (kv.0@, kv.1@))
                == ps,
            None => r matches Err(UrlencodedError::Parse),
        },
{
    match decode_pairs_raw(body) {
        Some(v) => Ok(v),
        None => Err(UrlencodedError::Parse),
    }
}

} // verus!

verus! {

/// `s[lo..hi]` with surrounding spaces and tabs trimmed.
pub open spec fn trimmed(s: Seq<u8>, lo: int, hi: int) -> Seq<u8> {
    let a = crate::codec::skip_ows(s, lo);
    let b = crate::codec::rskip_ows(s, hi);
    if b < a {
        Seq::empty()
    } else {
        s.subrange(a, b)
    }
}

/// A value with one pair of surrounding double quotes removed.
pub open spec fn unquoted(v: Seq<u8>) -> Seq<u8> {
    if v.len() >= 2 && v[0] == 34 && v.last() == 34 {
        v.subrange(1, v.len() - 1)
    } else {
        v
    }
}

/// The charset label one `name=value` parameter carries, when its name is
/// `charset`.
pub open spec fn param_charset(param: Seq<u8>) -> Option<Seq<u8>> {
    match find_byte(param, 61, 0, param.len() as int) {
        None => Option::<Seq<u8>>::None,
        Some(eq) => {
            let name = trimmed(param, 0, eq);
            if eq_ci(name, ascii_bytes("charset"@)) {
                Some(unquoted(trimmed(param, eq + 1, param.len() as int)))
            } else {
                Option::<Seq<u8>>::None
            }
        },
    }
}

/// The charset label of the first `charset` parameter at or after `from`
/// (`from` points just past a `;`), if any.
pub open spec fn charset_from(ct: Seq<u8>, from: int) -> Option<Seq<u8>>
    decreases ct.len() - from
        via charset_from_dec
{
    if from < 0 || from > ct.len() {
        Option::<Seq<u8>>::None
    } else {
        let end = match find_byte(ct, 59, from, ct.len() as int) {
            Some(i) => i,
            None => ct.len() as int,
        };
        match param_charset(ct.subrange(from, end)) {
            Some(label) => Some(label),
            None => if end < ct.len() {
                charset_from(ct, end + 1)
            } else {
                Option::<Seq<u8>>::None
            },
        }
    }
}

#[via_fn]
proof fn charset_from_dec(ct: Seq<u8>, from: int) {
    if 0 <= from <= ct.len() {
        crate::wire::lemma_find_byte(ct, 59, from, ct.len() as int);
    }
}

/// The charset label of a content-type header value, if one is declared.
pub open spec fn charset_of(ct: Seq<u8>) -> Option<Seq<u8>> {
    match find_byte(ct, 59, 0, ct.len() as int) {
        Some(i) => charset_from(ct, i + 1),
        None => Option::<Seq<u8>>::None,
    }
}

/// The charset labels that name UTF-8. Bodies are decoded as UTF-8 here, so
/// these are the only labels a form body may declare.
pub open spec fn is_utf8_charset(label: Seq<u8>) -> bool {
    ||| eq_ci(label, ascii_bytes("utf-8"@))
    ||| eq_ci(label, ascii_bytes("utf8"@))
    ||| eq_ci(label, ascii_bytes("unicode-1-1-utf-8"@))
    ||| eq_ci(label, ascii_bytes("unicode11utf8"@))
    ||| eq_ci(label, ascii_bytes("unicode20utf8"@))
    ||| eq_ci(label, ascii_bytes("x-unicode20utf8"@))
}

/// Read one parameter's charset label; mirrors `param_charset`.
fn scan_param_charset(param: &[u8]) -> (r: Option<Vec<u8>>)
    ensures
        match r {
            Some(v) => param_charset(param@) == Some(v@),
            None => param_charset(param@) is None,
        },
{
    let n = param.len();
    let eq = match scan_byte(param, 61, 0, n) {
        Some(i) => i,
        None => {
            return Option::<Vec<u8>>::None;
        },
    };
    let a = crate::codec::scan_ows(param, 0);
    let b = crate::codec::scan_ows_rev(param, eq);
    proof {
        reveal_strlit("charset");
        if crate::codec::rskip_ows(param@, eq as int) < crate::codec::skip_ows(param@, 0) {
            assert(trimmed(param@, 0, eq as int) =~= Seq::<u8>::empty());
        }
    }
    let cs = lit_bytes("charset");
    let name_matches = if b < a {
        let empty: Vec<u8> = Vec::new();
        proof {
            assert(empty@ =~= Seq::<u8>::empty());
        }
        eq_ignore_case(empty.as_slice(), cs.as_slice())
    } else {
        eq_ignore_case(slice_subrange(param, a, b), cs.as_slice())
    };
    if !name_matches {
        return Option::<Vec<u8>>::None;
    }
    let va = crate::codec::scan_ows(param, eq + 1);
    let vb = crate::codec::scan_ows_rev(param, n);
    let value: &[u8] = if vb < va {
        proof {
            assert(trimmed(param@, eq as int + 1, n as int) =~= Seq::<u8>::empty());
        }
        slice_subrange(param, 0, 0)
    } else {
        slice_subrange(param, va, vb)
    };
    proof {
        if vb < va {
            assert(value@ =~= trimmed(param@, eq as int + 1, n as int));
        }
    }
    let vlen = value.len();
    if vlen >= 2 && *vstd::slice::slice_index_get(value, 0) == 34 && *vstd::slice::slice_index_get(
        value,
        vlen - 1,
    ) == 34 {
        Some(crate::wire::copy_range(value, 1, vlen - 1))
    } else {
        Some(crate::wire::copy_range(value, 0, vlen))
    }
}

/// Read the charset label of a content-type value; mirrors `charset_of`.
fn scan_charset(ct: &[u8]) -> (r: Option<Vec<u8>>)
    ensures
        match r {
            Some(v) => charset_of(ct@) == Some(v@),
            None => charset_of(ct@) is None,
        },
{
    let n = ct.len();
    let mut from = match scan_byte(ct, 59, 0, n) {
        Some(i) => i + 1,
        None => {
            return Option::<Vec<u8>>::None;
        },
    };
    loop
        invariant
            0 <= from <= n,
            n == ct@.len(),
            charset_of(ct@) == charset_from(ct@, from as int),
        decreases n - from,
    {
        let end = match scan_byte(ct, 59, from, n) {
            Some(i) => i,
            None => n,
        };
        let param = slice_subrange(ct, from, end);
        match scan_param_charset(param) {
            Some(label) => {
                assert(charset_from(ct@, from as int) == Some(label@));
                return Some(label);
            },
            None => {
                if end < n {
                    assert(charset_from(ct@, from as int) == charset_from(ct@, end as int + 1));
                    from = end + 1;
                } else {
                    assert(charset_from(ct@, from as int) is None);
                    return Option::<Vec<u8>>::None;
                }
            },
        }
    }
}

/// Whether a label names UTF-8; mirrors `is_utf8_charset`.
fn check_utf8_charset(label: &[u8]) -> (r: bool)
    ensures
        r == is_utf8_charset(label@),
{
    proof {
        reveal_strlit("utf-8");
        reveal_strlit("utf8");
        reveal_strlit("unicode-1-1-utf-8");
        reveal_strlit("unicode11utf8");
        reveal_strlit("unicode20utf8");
        reveal_strlit("x-unicode20utf8");
    }
    let l1 = lit_bytes("utf-8");
    let l2 = lit_bytes("utf8");
    let l3 = lit_bytes("unicode-1-1-utf-8");
    let l4 = lit_bytes("unicode11utf8");
    let l5 = lit_bytes("unicode20utf8");
    let l6 = lit_bytes("x-unicode20utf8");
    eq_ignore_case(label, l1.as_slice()) || eq_ignore_case(label, l2.as_slice())
        || eq_ignore_case(label, l3.as_slice()) || eq_ignore_case(label, l4.as_slice())
        || eq_ignore_case(label, l5.as_slice()) || eq_ignore_case(label, l6.as_slice())
}

} // verus!
