//! Paging through listings with opaque page tokens.
use vstd::prelude::*;
use vstd::utf8::{decode_utf8, encode_utf8, valid_utf8};
use crate::text;
use crate::text::{all_digits_in, chars_of, push_nat_text, string_from_utf8, string_of};
use crate::timestamp::read_digits;

verus! {

/// What URL-safe base64 without padding decodes `text` to, if it is valid.
pub uninterp spec fn base64_url_decode(text: Seq<char>) -> Option<Seq<u8>>;

/// The URL-safe base64 text, without padding, of `bytes`.
pub uninterp spec fn base64_url_encode(bytes: Seq<u8>) -> Seq<char>;

/// Decodes URL-safe base64 without padding:
/// `base64::engine::general_purpose::URL_SAFE_NO_PAD.decode`. The result is
/// named, not stated: `None` exactly when the crate reports a decode error.
#[verifier::external_body]
fn decode_url_base64(text: &str) -> (r: Option<Vec<u8>>)
    ensures
        match r {
            Some(bytes) => base64_url_decode(text@) == Some(bytes@),
            None => base64_url_decode(text@) is None,
        },
{
    base64::Engine::decode(&base64::engine::general_purpose::URL_SAFE_NO_PAD, text).ok()
}

/// Encodes bytes as URL-safe base64 without padding:
/// `base64::engine::general_purpose::URL_SAFE_NO_PAD.encode`. The text is
/// named, and decoding it with the same engine gives the bytes back.
#[verifier::external_body]
fn encode_url_base64(bytes: &[u8]) -> (r: String)
    ensures
        r@ == base64_url_encode(bytes@),
        base64_url_decode(r@) == Some(bytes@),
{
    base64::Engine::encode(&base64::engine::general_purpose::URL_SAFE_NO_PAD, bytes)
}

/// The number a `usize` parse reads from `t`: an optional plus sign, then
/// at least one digit, within `usize`.
pub open spec fn usize_of_text(t: Seq<char>) -> Option<int> {
    let d = if t.len() > 0 && t[0] == '+' {
        t.drop_first()
    } else {
        t
    };
    if d.len() > 0 && text::all_digits(d) && text::digits_value(d) <= usize::MAX {
        Some(text::digits_value(d) as int)
    } else {
        None
    }
}

/// The offset decoded page bytes stand for; 0 when they stand for none.
pub open spec fn offset_of_bytes(bytes: Seq<u8>) -> int {
    if valid_utf8(bytes) {
        match usize_of_text(decode_utf8(bytes)) {
            Some(n) => n,
            None => 0,
        }
    } else {
        0
    }
}

/// The offset a page token stands for; 0 for none or an invalid token.
pub open spec fn offset_of_page(page: Option<Seq<char>>) -> int {
    match page {
        Some(p) => match base64_url_decode(p) {
            Some(bytes) => offset_of_bytes(bytes),
            None => 0,
        },
        None => 0,
    }
}

/// Pagination parameters extracted from a query string.
pub struct PaginationParams {
    pub page: Option<String>,
    pub limit: usize,
}

pub open spec fn opt_view(o: Option<String>) -> Option<Seq<char>> {
    match o {
        Some(s) => Some(s@),
        None => None,
    }
}

/// Reads the offset from decoded page bytes.
pub fn offset_from_bytes(bytes: Vec<u8>) -> (r: usize)
    ensures
        r == offset_of_bytes(bytes@),
{
    let s = match string_from_utf8(bytes) {
        Some(s) => s,
        None => {
            return 0;
        },
    };
    let v = chars_of(s.as_str());
    let n = v.len();
    let start: usize = if n > 0 && v[0] == '+' {
        1
    } else {
        0
    };
    proof {
        if start == 1 {
            assert(v@.subrange(1, n as int) =~= v@.drop_first());
        } else {
            assert(v@.subrange(0, n as int) =~= v@);
        }
    }
    if start >= n {
        return 0;
    }
    if !all_digits_in(&v, start, n) {
        return 0;
    }
    match read_digits(&v, start, n, usize::MAX as u128) {
        Some(m) => m as usize,
        None => 0,
    }
}

/// The base-ten text of an offset, as UTF-8 bytes.
pub open spec fn offset_bytes(offset: nat) -> Seq<u8> {
    encode_utf8(text::nat_text(offset))
}

impl PaginationParams {
    /// The page token decoded to an offset; 0 for the first page or a token
    /// that stands for no offset.
    pub fn offset(&self) -> (r: usize)
        ensures
            r == offset_of_page(opt_view(self.page)),
    {
        match &self.page {
            Some(p) => match decode_url_base64(p.as_str()) {
                Some(bytes) => offset_from_bytes(bytes),
                None => 0,
            },
            None => 0,
        }
    }

    /// An offset as an opaque page token.
    pub fn encode_offset(offset: usize) -> (r: String)
        ensures
            r@ == base64_url_encode(offset_bytes(offset as nat)),
            base64_url_decode(r@) == Some(offset_bytes(offset as nat)),
    {
        let mut v: Vec<char> = Vec::new();
        push_nat_text(offset as u128, &mut v);
        assert(v@ =~= text::nat_text(offset as nat));
        let s = string_of(v.as_slice());
        let b = s.as_str().as_bytes();
        encode_url_base64(b)
    }
}

/// A page token decodes to the offset it was made from.
pub proof fn lemma_offset_round_trip(offset: usize)
    ensures
        offset_of_bytes(offset_bytes(offset as nat)) == offset,
{
    let t = text::nat_text(offset as nat);
    vstd::utf8::encode_utf8_valid_utf8(t);
    vstd::utf8::encode_utf8_decode_utf8(t);
    text::lemma_nat_text(offset as nat);
    assert(decode_utf8(encode_utf8(t)) == t);
    assert(text::all_digits(t));
    assert(text::is_digit(t[0]));
    assert(t[0] != '+');
}

/// The page token of an offset reads back as that offset.
pub proof fn lemma_encoded_page_offset(offset: usize, token: Seq<char>)
    requires
        base64_url_decode(token) == Some(offset_bytes(offset as nat)),
    ensures
        offset_of_page(Some(token)) == offset,
{
    lemma_offset_round_trip(offset);
}

/// The page limit when none is asked for.
pub const DEFAULT_LIMIT: usize = 100;

/// The largest page limit granted.
pub const MAX_LIMIT: usize = 1000;

/// Pagination parameters from the `page` and `limit` query values: the
/// limit defaults to 100 and is capped at 1000.
pub fn pagination_from_query(page: Option<String>, limit: Option<usize>) -> (r: PaginationParams)
    ensures
        opt_view(r.page) == opt_view(page),
        r.limit == match limit {
            Some(l) => if l < MAX_LIMIT {
                l
            } else {
                MAX_LIMIT
            },
            None => DEFAULT_LIMIT,
        },
{
    let l = match limit {
        Some(l) => l,
        None => DEFAULT_LIMIT,
    };
    PaginationParams { page, limit: if l < MAX_LIMIT { l } else { MAX_LIMIT } }
}

/// One page of a listing: the items `start..end`, the limit that applied,
/// and the token of the next page if there is one.
pub struct PaginationResult {
    pub start: usize,
    pub end: usize,
    pub limit: usize,
    pub next_key: Option<String>,
}

/// The page of `len` items at `offset` with `limit`.
pub open spec fn page_bounds(len: int, offset: int, limit: int) -> (int, int) {
    if offset < len {
        (offset, if offset + limit < len { offset + limit } else { len })
    } else {
        (0, 0)
    }
}

/// Paginate a listing of `items` with the given parameters.
pub fn paginate<T>(items: &[T], params: &PaginationParams) -> (r: PaginationResult)
    ensures
        (r.start as int, r.end as int) == page_bounds(
            items@.len() as int,
            offset_of_page(opt_view(params.page)),
            params.limit as int,
        ),
        r.limit == params.limit,
        r.next_key is Some <==> offset_of_page(opt_view(params.page)) + params.limit < items@.len(),
        r.next_key matches Some(k) ==> k@ == base64_url_encode(
            offset_bytes((offset_of_page(opt_view(params.page)) + params.limit) as nat),
        ),
        r.next_key matches Some(k) ==> offset_of_page(Some(k@)) == offset_of_page(opt_view(params.page))
            + params.limit,
{
    let offset = params.offset();
    let limit = params.limit;
    let len = items.len();
    let (start, end) = if offset < len {
        let end = if limit < len - offset {
            offset + limit
        } else {
            len
        };
        (offset, end)
    } else {
        (0, 0)
    };
    let next_key = if limit < len && offset < len - limit {
        let next = offset + limit;
        let k = PaginationParams::encode_offset(next);
        proof {
            lemma_encoded_page_offset(next, k@);
        }
        Some(k)
    } else {
        None
    };
    PaginationResult { start, end, limit, next_key }
}

} // verus!
