//! The query-string and form decoder: `key=value&key2=value2` pairs with
//! percent-decoding, lookup by key, and the two structured targets the
//! framework offers — an optional-fields pagination struct and a single
//! numeric scalar. Form bodies reuse the same pair decoding.

use vstd::prelude::*;
use crate::bytes::bytes_of;
use crate::bytes::eq_bytes;
use crate::bytes::spec_split;
use crate::bytes::spec_split_first;
use crate::bytes::split_bytes;
use crate::bytes::split_first;
use crate::bytes::views_of;
use crate::error::ExtractError;
use crate::num::all_digits;
use crate::num::parse_u64;
use crate::num::spec_num;

verus! {

pub open spec fn is_hex(b: u8) -> bool {
    48 <= b <= 57 || 65 <= b <= 70 || 97 <= b <= 102
}

pub open spec fn hex_val(b: u8) -> u8
    recommends
        is_hex(b),
{
    if 48 <= b <= 57 {
        (b - 48) as u8
    } else if 65 <= b <= 70 {
        (b - 55) as u8
    } else {
        (b - 87) as u8
    }
}

/// Percent-decoding, lenient: `%` followed by two hex digits becomes that
/// byte, `+` becomes a space, and anything else — a stray `%` included —
/// passes through unchanged.
pub open spec fn spec_pct(s: Seq<u8>) -> Seq<u8>
    decreases s.len(),
{
    if s.len() == 0 {
        Seq::<u8>::empty()
    } else if s[0] == 37 && s.len() >= 3 && is_hex(s[1]) && is_hex(s[2]) {
        seq![(hex_val(s[1]) * 16 + hex_val(s[2])) as u8] + spec_pct(s.skip(3))
    } else if s[0] == 43 {
        seq![32u8] + spec_pct(s.skip(1))
    } else {
        seq![s[0]] + spec_pct(s.skip(1))
    }
}

fn is_hex_byte(b: u8) -> (r: bool)
    ensures
        r == is_hex(b),
{
    48 <= b && b <= 57 || 65 <= b && b <= 70 || 97 <= b && b <= 102
}

fn hex_val_byte(b: u8) -> (r: u8)
    requires
        is_hex(b),
    ensures
        r == hex_val(b),
        r <= 15,
{
    if 48 <= b && b <= 57 {
        b - 48
    } else if 65 <= b && b <= 70 {
        b - 55
    } else {
        b - 87
    }
}

/// Percent-decodes `s`.
pub fn pct_decode(s: &[u8]) -> (r: Vec<u8>)
    ensures
        r@ == spec_pct(s@),
{
    let mut out: Vec<u8> = Vec::new();
    let mut i: usize = 0;
    proof {
        assert(s@.skip(0) == s@);
    }
    while i < s.len()
        invariant
            i <= s.len(),
            spec_pct(s@) =~= out@ + spec_pct(s@.skip(i as int)),
        decreases s.len() - i,
    {
        let ghost pre = s@.skip(i as int);
        proof {
            assert(pre[0] == s@[i as int]);
        }
        if s[i] == 37 && s.len() - i >= 3 && is_hex_byte(s[i + 1]) && is_hex_byte(s[i + 2]) {
            proof {
                assert(pre.len() >= 3);
                assert(pre[1] == s@[i as int + 1]);
                assert(pre[2] == s@[i as int + 2]);
                assert(pre.skip(3) =~= s@.skip(i as int + 3));
            }
            let v = hex_val_byte(s[i + 1]) * 16 + hex_val_byte(s[i + 2]);
            out.push(v);
            i += 3;
        } else if s[i] == 43 {
            proof {
                assert(pre.skip(1) =~= s@.skip(i as int + 1));
            }
            out.push(32);
            i += 1;
        } else {
            proof {
                assert(pre.skip(1) =~= s@.skip(i as int + 1));
                assert(!(pre[0] == 37 && pre.len() >= 3 && is_hex(pre[1]) && is_hex(pre[2])));
            }
            out.push(s[i]);
            i += 1;
        }
    }
    proof {
        assert(s@.skip(i as int) =~= Seq::<u8>::empty());
        assert(out@ + Seq::<u8>::empty() =~= out@);
    }
    out
}

/// The views of a sequence of pairs of byte vectors.
pub open spec fn pair_views(v: Seq<(Vec<u8>, Vec<u8>)>) -> Seq<(Seq<u8>, Seq<u8>)> {
    v.map_values(|t: (Vec<u8>, Vec<u8>)| (t.0@, t.1@))
}

/// One raw `key=value` part, percent-decoded on both sides; a part without
/// `=` is a key with an empty value.
pub open spec fn spec_pair_of(p: Seq<u8>) -> (Seq<u8>, Seq<u8>) {
    (spec_pct(spec_split_first(p, 61).0), spec_pct(spec_split_first(p, 61).1))
}

/// The decoded pairs of a query string or form body: parts between `&`,
/// each split at its first `=`, keys and values percent-decoded.
pub open spec fn spec_pairs(q: Seq<u8>) -> Seq<(Seq<u8>, Seq<u8>)> {
    spec_split(q, 38).map_values(|p: Seq<u8>| spec_pair_of(p))
}

/// Decodes a query string or form body into its pairs.
pub fn parse_pairs(q: &[u8]) -> (r: Vec<(Vec<u8>, Vec<u8>)>)
    ensures
        pair_views(r@) == spec_pairs(q@),
{
    let parts = split_bytes(q, 38);
    let mut out: Vec<(Vec<u8>, Vec<u8>)> = Vec::new();
    let mut i: usize = 0;
    proof {
        assert(spec_pairs(q@).len() == parts@.len());
        assert(pair_views(out@) =~~= spec_pairs(q@).take(0));
    }
    while i < parts.len()
        invariant
            i <= parts.len(),
            views_of(parts@) == spec_split(q@, 38),
            pair_views(out@) =~~= spec_pairs(q@).take(i as int),
        decreases parts.len() - i,
    {
        let (rk, rv) = split_first(&parts[i], 61);
        let k = pct_decode(rk.as_slice());
        let v = pct_decode(rv.as_slice());
        let ghost old_out = out@;
        out.push((k, v));
        proof {
            assert(views_of(parts@)[i as int] == parts@[i as int]@);
            assert(spec_pairs(q@)[i as int] == spec_pair_of(parts@[i as int]@));
            assert(pair_views(out@) =~~= pair_views(old_out) + seq![(k@, v@)]);
            assert(pair_views(out@) =~~= spec_pairs(q@).take(i as int + 1));
        }
        i += 1;
    }
    proof {
        assert(spec_pairs(q@).take(i as int) =~~= spec_pairs(q@));
    }
    out
}

/// The value of the first pair whose key is `name`.
pub open spec fn spec_lookup(ps: Seq<(Seq<u8>, Seq<u8>)>, name: Seq<u8>) -> Option<Seq<u8>>
    decreases ps.len(),
{
    if ps.len() == 0 {
        None
    } else if ps[0].0 == name {
        Some(ps[0].1)
    } else {
        spec_lookup(ps.skip(1), name)
    }
}

/// Finds the first pair whose key is `name` and copies its value out.
pub fn lookup(ps: &Vec<(Vec<u8>, Vec<u8>)>, name: &[u8]) -> (r: Option<Vec<u8>>)
    ensures
        match r {
            Some(v) => spec_lookup(pair_views(ps@), name@) == Some(v@),
            None => spec_lookup(pair_views(ps@), name@) is None,
        },
{
    let mut i: usize = 0;
    proof {
        assert(pair_views(ps@).skip(0) == pair_views(ps@));
    }
    while i < ps.len()
        invariant
            i <= ps.len(),
            spec_lookup(pair_views(ps@), name@) == spec_lookup(
                pair_views(ps@).skip(i as int),
                name@,
            ),
        decreases ps.len() - i,
    {
        let ghost rest = pair_views(ps@).skip(i as int);
        proof {
            assert(rest[0] == (ps@[i as int].0@, ps@[i as int].1@));
            assert(rest.skip(1) =~= pair_views(ps@).skip(i as int + 1));
        }
        if eq_bytes(ps[i].0.as_slice(), name) {
            return Some(vstd::slice::slice_to_vec(ps[i].1.as_slice()));
        }
        i += 1;
    }
    proof {
        assert(pair_views(ps@).skip(i as int) =~= Seq::<(Seq<u8>, Seq<u8>)>::empty());
    }
    None
}

/// An optional numeric query field: absent is `None`, a numeral is its
/// value, anything else is a `ParamParseError`.
pub open spec fn spec_opt_num_field(ps: Seq<(Seq<u8>, Seq<u8>)>, name: Seq<u8>) -> Result<
    Option<u64>,
    ExtractError,
> {
    match spec_lookup(ps, name) {
        None => Ok(None),
        Some(v) => if v.len() > 0 && all_digits(v) && spec_num(v) <= u64::MAX {
            Ok(Some(spec_num(v) as u64))
        } else {
            Err(ExtractError::ParamParseError)
        },
    }
}

fn opt_num_field(ps: &Vec<(Vec<u8>, Vec<u8>)>, name: &[u8]) -> (r: Result<Option<u64>, ExtractError>)
    ensures
        r == spec_opt_num_field(pair_views(ps@), name@),
{
    match lookup(ps, name) {
        None => Ok(None),
        Some(v) => match parse_u64(v.as_slice()) {
            Some(n) => Ok(Some(n)),
            None => Err(ExtractError::ParamParseError),
        },
    }
}

/// The pagination window a listing handler accepts: both fields optional.
#[derive(Clone, Copy, Debug, PartialEq, Eq, Structural)]
pub struct Pagination {
    pub offset: Option<u64>,
    pub limit: Option<u64>,
}

/// Pagination from a raw query string: `offset` and `limit` are optional
/// numeric fields; unknown keys are ignored; a present field that is not a
/// numeral fails, the `offset` failure reported first.
pub open spec fn spec_pagination(q: Seq<u8>) -> Result<Pagination, ExtractError> {
    let ps = spec_pairs(q);
    match spec_opt_num_field(ps, bytes_of("offset")) {
        Err(e) => Err(e),
        Ok(offset) => match spec_opt_num_field(ps, bytes_of("limit")) {
            Err(e) => Err(e),
            Ok(limit) => Ok(Pagination { offset, limit }),
        },
    }
}

/// Extracts the pagination window from a raw query string.
pub fn extract_pagination(q: &[u8]) -> (r: Result<Pagination, ExtractError>)
    ensures
        r == spec_pagination(q@),
{
    let ps = parse_pairs(q);
    let offset = match opt_num_field(&ps, crate::bytes::lit_bytes("offset").as_slice()) {
        Ok(o) => o,
        Err(e) => {
            return Err(e);
        },
    };
    let limit = match opt_num_field(&ps, crate::bytes::lit_bytes("limit").as_slice()) {
        Ok(o) => o,
        Err(e) => {
            return Err(e);
        },
    };
    Ok(Pagination { offset, limit })
}

/// A single numeric scalar from a query string: the first pair's value, or
/// its key when the value is empty (so both `?id=5` and `?5` carry 5).
/// An empty query is a missing field; a non-numeral fails.
pub open spec fn spec_query_u32(q: Seq<u8>) -> Result<u32, ExtractError> {
    let ps = spec_pairs(q);
    if q.len() == 0 {
        Err(ExtractError::MissingQueryField)
    } else {
        let raw = if ps[0].1.len() > 0 {
            ps[0].1
        } else {
            ps[0].0
        };
        if raw.len() > 0 && all_digits(raw) && spec_num(raw) <= u32::MAX {
            Ok((spec_num(raw) as u32))
        } else {
            Err(ExtractError::ParamParseError)
        }
    }
}

/// Extracts a single numeric scalar from a raw query string.
pub fn extract_query_u32(q: &[u8]) -> (r: Result<u32, ExtractError>)
    ensures
        r == spec_query_u32(q@),
{
    if q.len() == 0 {
        return Err(ExtractError::MissingQueryField);
    }
    let ps = parse_pairs(q);
    proof {
        crate::bytes::lemma_split_len(q@, 38);
        assert(pair_views(ps@).len() >= 1);
        assert(pair_views(ps@)[0] == (ps@[0].0@, ps@[0].1@));
    }
    let first = if ps[0].1.len() > 0 {
        ps[0].1.as_slice()
    } else {
        ps[0].0.as_slice()
    };
    match crate::num::parse_u32(first) {
        Some(n) => Ok(n),
        None => Err(ExtractError::ParamParseError),
    }
}

} // verus!
