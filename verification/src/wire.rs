//! Numbers, strings, positions, stops and transfer points as bytes, each
//! read back exactly as it was written.

use vstd::prelude::*;
use vstd::bytes::{
    lemma_auto_spec_u64_to_from_le_bytes, spec_u64_from_le_bytes, spec_u64_to_le_bytes,
    u64_from_le_bytes, u64_to_le_bytes,
};
use vstd::slice::{slice_subrange, slice_to_vec};
use vstd::utf8::{decode_utf8, encode_utf8, encode_utf8_decode_utf8, encode_utf8_valid_utf8, valid_utf8};
use crate::geometry::{on_globe, GeoPoint, LAT_LIMIT, LON_LIMIT};
use crate::model::{BusStop, TransferPoint, TransferType};

verus! {

/// The eight bytes of a number, lowest first.
pub open spec fn enc_u64(x: u64) -> Seq<u8> {
    spec_u64_to_le_bytes(x)
}

/// The number in the first eight bytes, and what follows them.
pub open spec fn dec_u64(b: Seq<u8>) -> Option<(u64, Seq<u8>)> {
    if b.len() >= 8 {
        Some((spec_u64_from_le_bytes(b.subrange(0, 8)), b.skip(8)))
    } else {
        None
    }
}

/// The first byte, and what follows it.
pub open spec fn dec_u8(b: Seq<u8>) -> Option<(u8, Seq<u8>)> {
    if b.len() >= 1 {
        Some((b[0], b.skip(1)))
    } else {
        None
    }
}

/// A number is read back as it was written.
pub proof fn lemma_u64_round_trip(x: u64, rest: Seq<u8>)
    ensures
        enc_u64(x).len() == 8,
        dec_u64(enc_u64(x) + rest) == Some((x, rest)),
{
    lemma_auto_spec_u64_to_from_le_bytes();
    let b = enc_u64(x) + rest;
    assert(b.subrange(0, 8) =~= enc_u64(x));
    assert(b.skip(8) =~= rest);
}

/// Appending to the second part is appending to the whole.
pub proof fn lemma_append_assoc(a: Seq<u8>, b: Seq<u8>, c: Seq<u8>)
    ensures
        (a + b) + c == a + (b + c),
{
    assert((a + b) + c =~= a + (b + c));
}

/// The bytes of a string: the number of its bytes in UTF-8, then those.
pub open spec fn enc_string(s: Seq<char>) -> Seq<u8> {
    enc_u64(encode_utf8(s).len() as u64) + encode_utf8(s)
}

/// The string at the start of `b`, and what follows it.
pub open spec fn dec_string(b: Seq<u8>) -> Option<(Seq<char>, Seq<u8>)> {
    match dec_u64(b) {
        Some((n, r)) => if r.len() >= n && valid_utf8(r.subrange(0, n as int)) {
            Some((decode_utf8(r.subrange(0, n as int)), r.skip(n as int)))
        } else {
            None
        },
        None => None,
    }
}

/// Whether a string is short enough to be written.
pub open spec fn string_fits(s: Seq<char>) -> bool {
    encode_utf8(s).len() <= u64::MAX
}

/// A string is read back as it was written.
pub proof fn lemma_string_round_trip(s: Seq<char>, rest: Seq<u8>)
    requires
        string_fits(s),
    ensures
        dec_string(enc_string(s) + rest) == Some((s, rest)),
{
    let body = encode_utf8(s);
    let n = body.len() as u64;
    lemma_u64_round_trip(n, body + rest);
    assert(enc_string(s) + rest =~= enc_u64(n) + (body + rest));
    assert((body + rest).subrange(0, n as int) =~= body);
    assert((body + rest).skip(n as int) =~= rest);
    encode_utf8_valid_utf8(s);
    encode_utf8_decode_utf8(s);
}

/// The bytes of an optional string: a mark, then the string if there is one.
pub open spec fn enc_opt_string(s: Option<Seq<char>>) -> Seq<u8> {
    match s {
        Some(v) => seq![1u8] + enc_string(v),
        None => seq![0u8],
    }
}

/// The optional string at the start of `b`, and what follows it.
pub open spec fn dec_opt_string(b: Seq<u8>) -> Option<(Option<Seq<char>>, Seq<u8>)> {
    match dec_u8(b) {
        Some((mark, r)) => if mark == 0 {
            Some((None, r))
        } else if mark == 1 {
            match dec_string(r) {
                Some((s, r2)) => Some((Some(s), r2)),
                None => None,
            }
        } else {
            None
        },
        None => None,
    }
}

/// An optional string is read back as it was written.
pub proof fn lemma_opt_string_round_trip(s: Option<Seq<char>>, rest: Seq<u8>)
    requires
        s matches Some(v) ==> string_fits(v),
    ensures
        dec_opt_string(enc_opt_string(s) + rest) == Some((s, rest)),
{
    let b = enc_opt_string(s) + rest;
    match s {
        Some(v) => {
            assert(b.skip(1) =~= enc_string(v) + rest);
            lemma_string_round_trip(v, rest);
        },
        None => {
            assert(b.skip(1) =~= rest);
        },
    }
}

/// The bytes of a position: each coordinate counted from its lower limit.
pub open spec fn enc_point(p: (int, int)) -> Seq<u8> {
    enc_u64((p.0 + LON_LIMIT) as u64) + enc_u64((p.1 + LAT_LIMIT) as u64)
}

/// The position at the start of `b`, if it is on the globe, and what
/// follows it.
pub open spec fn dec_point(b: Seq<u8>) -> Option<((int, int), Seq<u8>)> {
    match dec_u64(b) {
        Some((x, r)) => match dec_u64(r) {
            Some((y, r2)) => if x <= 2 * LON_LIMIT && y <= 2 * LAT_LIMIT {
                Some(((x - LON_LIMIT, y - LAT_LIMIT), r2))
            } else {
                None
            },
            None => None,
        },
        None => None,
    }
}

/// A position on the globe is read back as it was written.
pub proof fn lemma_point_round_trip(p: (int, int), rest: Seq<u8>)
    requires
        on_globe(p.0, p.1),
    ensures
        dec_point(enc_point(p) + rest) == Some((p, rest)),
{
    let x = (p.0 + LON_LIMIT) as u64;
    let y = (p.1 + LAT_LIMIT) as u64;
    lemma_u64_round_trip(x, enc_u64(y) + rest);
    lemma_u64_round_trip(y, rest);
    assert(enc_point(p) + rest =~= enc_u64(x) + (enc_u64(y) + rest));
}

/// The byte that stands for a tier.
pub open spec fn enc_tier(t: TransferType) -> u8 {
    match t {
        TransferType::Direct => 0,
        TransferType::Near => 1,
        TransferType::Proximate => 2,
    }
}

/// The tier that a byte stands for.
pub open spec fn dec_tier(b: u8) -> Option<TransferType> {
    if b == 0 {
        Some(TransferType::Direct)
    } else if b == 1 {
        Some(TransferType::Near)
    } else if b == 2 {
        Some(TransferType::Proximate)
    } else {
        None
    }
}

/// Appends the eight bytes of `x`.
pub fn write_u64(out: &mut Vec<u8>, x: u64)
    ensures
        final(out)@ == old(out)@ + enc_u64(x),
{
    let mut bytes: Vec<u8> = u64_to_le_bytes(x);
    out.append(&mut bytes);
}

/// Reads a number at `pos`.
pub fn read_u64(bytes: &Vec<u8>, pos: usize) -> (r: Option<(u64, usize)>)
    requires
        pos <= bytes@.len(),
    ensures
        match dec_u64(bytes@.skip(pos as int)) {
            Some((x, rest)) => r matches Some(found) && found.0 == x && found.1 == pos + 8 && pos
                + 8 <= bytes@.len() && rest == bytes@.skip(pos + 8),
            None => r is None,
        },
{
    if bytes.len() - pos < 8 {
        return None;
    }
    let part: &[u8] = slice_subrange(bytes.as_slice(), pos, pos + 8);
    proof {
        assert(bytes@.skip(pos as int).subrange(0, 8) =~= bytes@.subrange(pos as int, pos + 8));
        assert(bytes@.skip(pos as int).skip(8) =~= bytes@.skip(pos + 8));
    }
    Some((u64_from_le_bytes(part), pos + 8))
}

/// Reads one byte at `pos`.
pub fn read_u8(bytes: &Vec<u8>, pos: usize) -> (r: Option<(u8, usize)>)
    requires
        pos <= bytes@.len(),
    ensures
        match dec_u8(bytes@.skip(pos as int)) {
            Some((x, rest)) => r matches Some(found) && found.0 == x && found.1 == pos + 1 && pos
                + 1 <= bytes@.len() && rest == bytes@.skip(pos + 1),
            None => r is None,
        },
{
    if pos < bytes.len() {
        assert(bytes@.skip(pos as int).skip(1) =~= bytes@.skip(pos + 1));
        Some((bytes[pos], pos + 1))
    } else {
        None
    }
}

/// `String::from_utf8` of std: the string that the bytes spell, where they
/// are valid UTF-8, and nothing where they are not.
#[verifier::external_body]
fn string_from_utf8(bytes: Vec<u8>) -> (r: Option<String>)
    ensures
        r is Some <==> valid_utf8(bytes@),
        r matches Some(s) ==> s@ == decode_utf8(bytes@),
{
    String::from_utf8(bytes).ok()
}

/// Appends the bytes of a string.
pub fn write_string(out: &mut Vec<u8>, s: &String)
    ensures
        final(out)@ == old(out)@ + enc_string(s@),
        string_fits(s@),
{
    let mut body: Vec<u8> = s.as_str().as_bytes_vec();
    write_u64(out, body.len() as u64);
    out.append(&mut body);
    assert(out@ =~= old(out)@ + enc_string(s@));
}

/// Reads a string at `pos`.
pub fn read_string(bytes: &Vec<u8>, pos: usize) -> (r: Option<(String, usize)>)
    requires
        pos <= bytes@.len(),
    ensures
        match dec_string(bytes@.skip(pos as int)) {
            Some((s, rest)) => r matches Some(found) && found.0@ == s && found.1 <= bytes@.len()
                && rest == bytes@.skip(found.1 as int),
            None => r is None,
        },
{
    let (n, at) = match read_u64(bytes, pos) {
        Some(found) => found,
        None => {
            return None;
        },
    };
    if ((bytes.len() - at) as u64) < n {
        return None;
    }
    let end: usize = at + n as usize;
    let part: &[u8] = slice_subrange(bytes.as_slice(), at, end);
    let body: Vec<u8> = slice_to_vec(part);
    proof {
        assert(bytes@.skip(at as int).subrange(0, n as int) =~= bytes@.subrange(at as int, end as int));
        assert(bytes@.skip(at as int).skip(n as int) =~= bytes@.skip(end as int));
    }
    match string_from_utf8(body) {
        Some(s) => Some((s, end)),
        None => None,
    }
}

/// A stop as it is stored.
pub struct StopView {
    pub route_code: Seq<char>,
    pub location: (int, int),
    pub name: Option<Seq<char>>,
}

/// A transfer point as it is stored.
pub struct TransferView {
    pub location: (int, int),
    pub bus_stop: Option<StopView>,
    pub distance_to_route: u64,
    pub transfer_type: TransferType,
    pub from_route: Seq<char>,
    pub to_route: Option<Seq<char>>,
}

/// The characters of an optional string.
pub open spec fn opt_chars(s: Option<String>) -> Option<Seq<char>> {
    match s {
        Some(v) => Some(v@),
        None => None,
    }
}

/// What is stored of a stop.
pub open spec fn stop_view(s: BusStop) -> StopView {
    StopView { route_code: s.route_code@, location: s.location@, name: opt_chars(s.name) }
}

/// What is stored of a transfer point.
pub open spec fn transfer_view(t: TransferPoint) -> TransferView {
    TransferView {
        location: t.location@,
        bus_stop: match t.bus_stop {
            Some(s) => Some(stop_view(s)),
            None => None,
        },
        distance_to_route: t.distance_to_route,
        transfer_type: t.transfer_type,
        from_route: t.from_route@,
        to_route: opt_chars(t.to_route),
    }
}

/// Whether a stop can be written.
pub open spec fn stop_fits(s: StopView) -> bool {
    &&& string_fits(s.route_code)
    &&& on_globe(s.location.0, s.location.1)
    &&& s.name matches Some(n) ==> string_fits(n)
}

/// Whether a transfer point can be written.
pub open spec fn transfer_fits(t: TransferView) -> bool {
    &&& on_globe(t.location.0, t.location.1)
    &&& t.bus_stop matches Some(s) ==> stop_fits(s)
    &&& string_fits(t.from_route)
    &&& t.to_route matches Some(n) ==> string_fits(n)
}

/// The bytes of a stop.
pub open spec fn enc_stop(s: StopView) -> Seq<u8> {
    enc_string(s.route_code) + (enc_point(s.location) + enc_opt_string(s.name))
}

/// The stop at the start of `b`, and what follows it.
pub open spec fn dec_stop(b: Seq<u8>) -> Option<(StopView, Seq<u8>)> {
    match dec_string(b) {
        Some((route_code, r1)) => match dec_point(r1) {
            Some((location, r2)) => match dec_opt_string(r2) {
                Some((name, r3)) => Some((StopView { route_code, location, name }, r3)),
                None => None,
            },
            None => None,
        },
        None => None,
    }
}

/// A stop is read back as it was written.
pub proof fn lemma_stop_round_trip(s: StopView, rest: Seq<u8>)
    requires
        stop_fits(s),
    ensures
        dec_stop(enc_stop(s) + rest) == Some((s, rest)),
{
    let a = enc_string(s.route_code);
    let b = enc_point(s.location);
    let c = enc_opt_string(s.name);
    lemma_append_assoc(a, b + c, rest);
    lemma_append_assoc(b, c, rest);
    lemma_string_round_trip(s.route_code, b + (c + rest));
    lemma_point_round_trip(s.location, c + rest);
    lemma_opt_string_round_trip(s.name, rest);
}

/// The bytes of an optional stop: a mark, then the stop if there is one.
pub open spec fn enc_opt_stop(s: Option<StopView>) -> Seq<u8> {
    match s {
        Some(v) => seq![1u8] + enc_stop(v),
        None => seq![0u8],
    }
}

/// The optional stop at the start of `b`, and what follows it.
pub open spec fn dec_opt_stop(b: Seq<u8>) -> Option<(Option<StopView>, Seq<u8>)> {
    match dec_u8(b) {
        Some((mark, r)) => if mark == 0 {
            Some((None, r))
        } else if mark == 1 {
            match dec_stop(r) {
                Some((s, r2)) => Some((Some(s), r2)),
                None => None,
            }
        } else {
            None
        },
        None => None,
    }
}

/// An optional stop is read back as it was written.
pub proof fn lemma_opt_stop_round_trip(s: Option<StopView>, rest: Seq<u8>)
    requires
        s matches Some(v) ==> stop_fits(v),
    ensures
        dec_opt_stop(enc_opt_stop(s) + rest) == Some((s, rest)),
{
    let b = enc_opt_stop(s) + rest;
    match s {
        Some(v) => {
            assert(b.skip(1) =~= enc_stop(v) + rest);
            lemma_stop_round_trip(v, rest);
        },
        None => {
            assert(b.skip(1) =~= rest);
        },
    }
}

/// The bytes of a transfer point.
#[verifier::opaque]
pub open spec fn enc_transfer(t: TransferView) -> Seq<u8> {
    enc_point(t.location) + (enc_opt_stop(t.bus_stop) + (enc_u64(t.distance_to_route) + enc_tail(
        t.transfer_type,
        t.from_route,
        t.to_route,
    )))
}

/// The bytes of a tier and two route codes.
pub open spec fn enc_tail(tier: TransferType, from_route: Seq<char>, to_route: Option<Seq<char>>) -> Seq<
    u8,
> {
    seq![enc_tier(tier)] + (enc_string(from_route) + enc_opt_string(to_route))
}

/// The tier and the two route codes at the start of `b`, and what follows
/// them.
pub open spec fn dec_tail(b: Seq<u8>) -> Option<
    ((TransferType, Seq<char>, Option<Seq<char>>), Seq<u8>),
> {
    match dec_u8(b) {
        Some((mark, r4)) => match dec_tier(mark) {
            Some(transfer_type) => match dec_string(r4) {
                Some((from_route, r5)) => match dec_opt_string(r5) {
                    Some((to_route, r6)) => Some(((transfer_type, from_route, to_route), r6)),
                    None => None,
                },
                None => None,
            },
            None => None,
        },
        None => None,
    }
}

/// The transfer point at the start of `b`, and what follows it.
#[verifier::opaque]
pub open spec fn dec_transfer(b: Seq<u8>) -> Option<(TransferView, Seq<u8>)> {
    match dec_point(b) {
        Some((location, r1)) => match dec_opt_stop(r1) {
            Some((bus_stop, r2)) => match dec_u64(r2) {
                Some((distance_to_route, r3)) => match dec_tail(r3) {
                    Some((tail, r6)) => Some(
                        (
                            TransferView {
                                location,
                                bus_stop,
                                distance_to_route,
                                transfer_type: tail.0,
                                from_route: tail.1,
                                to_route: tail.2,
                            },
                            r6,
                        ),
                    ),
                    None => None,
                },
                None => None,
            },
            None => None,
        },
        None => None,
    }
}

/// The tier and the route codes are read back as they were written.
pub proof fn lemma_tail_round_trip(
    tier: TransferType,
    from_route: Seq<char>,
    to_route: Option<Seq<char>>,
    rest: Seq<u8>,
)
    requires
        string_fits(from_route),
        to_route matches Some(n) ==> string_fits(n),
    ensures
        dec_tail(enc_tail(tier, from_route, to_route) + rest) == Some(
            ((tier, from_route, to_route), rest),
        ),
{
    let a = seq![enc_tier(tier)];
    let b = enc_string(from_route);
    let c = enc_opt_string(to_route);
    lemma_append_assoc(a, b + c, rest);
    lemma_append_assoc(b, c, rest);
    let whole = a + (b + (c + rest));
    assert(whole[0] == enc_tier(tier));
    assert(whole.skip(1) =~= b + (c + rest));
    assert(dec_tier(enc_tier(tier)) == Some(tier));
    lemma_string_round_trip(from_route, c + rest);
    lemma_opt_string_round_trip(to_route, rest);
}

/// A transfer point is read back as it was written.
pub proof fn lemma_transfer_round_trip(t: TransferView, rest: Seq<u8>)
    requires
        transfer_fits(t),
    ensures
        dec_transfer(enc_transfer(t) + rest) == Some((t, rest)),
{
    reveal(enc_transfer);
    reveal(dec_transfer);
    let a = enc_point(t.location);
    let b = enc_opt_stop(t.bus_stop);
    let c = enc_u64(t.distance_to_route);
    let d = enc_tail(t.transfer_type, t.from_route, t.to_route);
    lemma_append_assoc(a, b + (c + d), rest);
    lemma_append_assoc(b, c + d, rest);
    lemma_append_assoc(c, d, rest);
    lemma_point_round_trip(t.location, b + (c + (d + rest)));
    lemma_opt_stop_round_trip(t.bus_stop, c + (d + rest));
    lemma_u64_round_trip(t.distance_to_route, d + rest);
    lemma_tail_round_trip(t.transfer_type, t.from_route, t.to_route, rest);
}

/// Appends the bytes of an optional string.
pub fn write_opt_string(out: &mut Vec<u8>, s: &Option<String>)
    ensures
        final(out)@ == old(out)@ + enc_opt_string(opt_chars(*s)),
        opt_chars(*s) matches Some(v) ==> string_fits(v),
{
    match s {
        Some(v) => {
            out.push(1);
            write_string(out, v);
            assert(out@ =~= old(out)@ + enc_opt_string(opt_chars(*s)));
        },
        None => {
            out.push(0);
            assert(out@ =~= old(out)@ + enc_opt_string(opt_chars(*s)));
        },
    }
}

/// Reads an optional string at `pos`.
pub fn read_opt_string(bytes: &Vec<u8>, pos: usize) -> (r: Option<(Option<String>, usize)>)
    requires
        pos <= bytes@.len(),
    ensures
        match dec_opt_string(bytes@.skip(pos as int)) {
            Some((s, rest)) => r matches Some(found) && opt_chars(found.0) == s && found.1
                <= bytes@.len() && rest == bytes@.skip(found.1 as int),
            None => r is None,
        },
{
    let (mark, at) = match read_u8(bytes, pos) {
        Some(found) => found,
        None => {
            return None;
        },
    };
    if mark == 0 {
        Some((None, at))
    } else if mark == 1 {
        match read_string(bytes, at) {
            Some((s, end)) => Some((Some(s), end)),
            None => None,
        }
    } else {
        None
    }
}

/// Appends the bytes of a position.
pub fn write_point(out: &mut Vec<u8>, p: GeoPoint)
    ensures
        final(out)@ == old(out)@ + enc_point(p@),
        on_globe(p@.0, p@.1),
{
    let x: u64 = (p.lon() + LON_LIMIT) as u64;
    let y: u64 = (p.lat() + LAT_LIMIT) as u64;
    write_u64(out, x);
    write_u64(out, y);
    assert(out@ =~= old(out)@ + enc_point(p@));
}

/// Reads a position at `pos`.
pub fn read_point(bytes: &Vec<u8>, pos: usize) -> (r: Option<(GeoPoint, usize)>)
    requires
        pos <= bytes@.len(),
    ensures
        match dec_point(bytes@.skip(pos as int)) {
            Some((p, rest)) => r matches Some(found) && found.0@ == p && found.1 <= bytes@.len()
                && rest == bytes@.skip(found.1 as int),
            None => r is None,
        },
{
    let (x, at) = match read_u64(bytes, pos) {
        Some(found) => found,
        None => {
            return None;
        },
    };
    let (y, end) = match read_u64(bytes, at) {
        Some(found) => found,
        None => {
            return None;
        },
    };
    if x > 2 * LON_LIMIT as u64 || y > 2 * LAT_LIMIT as u64 {
        return None;
    }
    match GeoPoint::new(x as i64 - LON_LIMIT, y as i64 - LAT_LIMIT) {
        Some(p) => Some((p, end)),
        None => None,
    }
}

/// Appends the bytes of a stop.
pub fn write_stop(out: &mut Vec<u8>, s: &BusStop)
    ensures
        final(out)@ == old(out)@ + enc_stop(stop_view(*s)),
        stop_fits(stop_view(*s)),
{
    write_string(out, &s.route_code);
    write_point(out, s.location);
    write_opt_string(out, &s.name);
    assert(out@ =~= old(out)@ + enc_stop(stop_view(*s)));
}

/// Reads a stop at `pos`.
pub fn read_stop(bytes: &Vec<u8>, pos: usize) -> (r: Option<(BusStop, usize)>)
    requires
        pos <= bytes@.len(),
    ensures
        match dec_stop(bytes@.skip(pos as int)) {
            Some((s, rest)) => r matches Some(found) && stop_view(found.0) == s && found.1
                <= bytes@.len() && rest == bytes@.skip(found.1 as int),
            None => r is None,
        },
{
    let (route_code, a1) = match read_string(bytes, pos) {
        Some(found) => found,
        None => {
            return None;
        },
    };
    let (location, a2) = match read_point(bytes, a1) {
        Some(found) => found,
        None => {
            return None;
        },
    };
    let (name, a3) = match read_opt_string(bytes, a2) {
        Some(found) => found,
        None => {
            return None;
        },
    };
    Some((BusStop { route_code, location, name }, a3))
}

/// Appends the bytes of a transfer point.
pub fn write_transfer(out: &mut Vec<u8>, t: &TransferPoint)
    ensures
        final(out)@ == old(out)@ + enc_transfer(transfer_view(*t)),
        transfer_fits(transfer_view(*t)),
{
    reveal(enc_transfer);
    write_point(out, t.location);
    match &t.bus_stop {
        Some(s) => {
            out.push(1);
            write_stop(out, s);
        },
        None => {
            out.push(0);
        },
    }
    assert(out@ =~= old(out)@ + enc_point(t.location@) + enc_opt_stop(transfer_view(*t).bus_stop));
    write_u64(out, t.distance_to_route);
    out.push(
        match t.transfer_type {
            TransferType::Direct => 0,
            TransferType::Near => 1,
            TransferType::Proximate => 2,
        },
    );
    write_string(out, &t.from_route);
    write_opt_string(out, &t.to_route);
    assert(out@ =~= old(out)@ + enc_transfer(transfer_view(*t)));
}

/// Reads a transfer point at `pos`.
pub fn read_transfer(bytes: &Vec<u8>, pos: usize) -> (r: Option<(TransferPoint, usize)>)
    requires
        pos <= bytes@.len(),
    ensures
        match dec_transfer(bytes@.skip(pos as int)) {
            Some((t, rest)) => r matches Some(found) && transfer_view(found.0) == t && found.1
                <= bytes@.len() && rest == bytes@.skip(found.1 as int),
            None => r is None,
        },
{
    reveal(dec_transfer);
    let (location, a1) = match read_point(bytes, pos) {
        Some(found) => found,
        None => {
            return None;
        },
    };
    let (mark, a1b) = match read_u8(bytes, a1) {
        Some(found) => found,
        None => {
            return None;
        },
    };
    let (bus_stop, a2): (Option<BusStop>, usize) = if mark == 0 {
        (None, a1b)
    } else if mark == 1 {
        match read_stop(bytes, a1b) {
            Some((s, end)) => (Some(s), end),
            None => {
                return None;
            },
        }
    } else {
        return None;
    };
    let (distance_to_route, a3) = match read_u64(bytes, a2) {
        Some(found) => found,
        None => {
            return None;
        },
    };
    let (tier, a4) = match read_u8(bytes, a3) {
        Some(found) => found,
        None => {
            return None;
        },
    };
    let transfer_type: TransferType = if tier == 0 {
        TransferType::Direct
    } else if tier == 1 {
        TransferType::Near
    } else if tier == 2 {
        TransferType::Proximate
    } else {
        return None;
    };
    let (from_route, a5) = match read_string(bytes, a4) {
        Some(found) => found,
        None => {
            return None;
        },
    };
    let (to_route, a6) = match read_opt_string(bytes, a5) {
        Some(found) => found,
        None => {
            return None;
        },
    };
    Some(
        (
            TransferPoint { location, bus_stop, distance_to_route, transfer_type, from_route, to_route },
            a6,
        ),
    )
}

} // verus!
