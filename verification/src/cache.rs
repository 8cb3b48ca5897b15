//! The stored form of an adjacency: a framed sequence of bytes that holds
//! each route code with its transfers, and is read back only if every part
//! of it is as it was written.

use vstd::prelude::*;
use crate::model::TransferPoint;
use crate::wire::{
    dec_string, dec_transfer, dec_u64, enc_string, enc_transfer, enc_u64, lemma_append_assoc,
    lemma_string_round_trip, lemma_transfer_round_trip, lemma_u64_round_trip, read_string,
    read_transfer, read_u64, string_fits, transfer_fits, transfer_view, write_string,
    write_transfer, write_u64, TransferView,
};

verus! {

/// The transfers stored for one route.
#[derive(Debug, Clone, PartialEq, Eq)]
pub struct CacheEntry {
    pub route_code: String,
    pub transfers: Vec<TransferPoint>,
}

/// A stored adjacency: for each route code, the best transfer to each route
/// that can be reached from it.
#[derive(Debug, Clone, PartialEq, Eq)]
pub struct RouteIntersectionCache {
    pub version: u32,
    /// When the adjacency was computed, in seconds since the epoch.
    pub last_updated: i64,
    pub intersections: Vec<CacheEntry>,
}

/// The transfers of one route as they are stored.
pub struct StoredEntry {
    pub route_code: Seq<char>,
    pub transfers: Seq<TransferView>,
}

/// An adjacency as it is stored.
pub struct CacheView {
    pub version: u32,
    pub last_updated: i64,
    pub entries: Seq<StoredEntry>,
}

/// What is stored of a list of transfer points.
pub open spec fn transfer_views_of(ts: Seq<TransferPoint>) -> Seq<TransferView> {
    ts.map_values(|t: TransferPoint| transfer_view(t))
}

/// What is stored of the transfers of one route.
pub open spec fn entry_view(e: CacheEntry) -> StoredEntry {
    StoredEntry { route_code: e.route_code@, transfers: transfer_views_of(e.transfers@) }
}

impl View for RouteIntersectionCache {
    type V = CacheView;

    open spec fn view(&self) -> CacheView {
        CacheView {
            version: self.version,
            last_updated: self.last_updated,
            entries: self.intersections@.map_values(|e: CacheEntry| entry_view(e)),
        }
    }
}

/// The bytes of a list of transfer points, one after the other.
pub open spec fn enc_transfers(ts: Seq<TransferView>) -> Seq<u8>
    decreases ts.len(),
{
    if ts.len() == 0 {
        Seq::empty()
    } else {
        enc_transfer(ts[0]) + enc_transfers(ts.drop_first())
    }
}

/// The `n` transfer points at the start of `b`, and what follows them.
pub open spec fn dec_transfers(b: Seq<u8>, n: nat) -> Option<(Seq<TransferView>, Seq<u8>)>
    decreases n,
{
    if n == 0 {
        Some((Seq::empty(), b))
    } else {
        match dec_transfer(b) {
            Some((t, r)) => match dec_transfers(r, (n - 1) as nat) {
                Some((ts, r2)) => Some((seq![t] + ts, r2)),
                None => None,
            },
            None => None,
        }
    }
}

/// Whether each of a list of transfer points can be written.
pub open spec fn transfers_fit(ts: Seq<TransferView>) -> bool {
    forall|i: int| 0 <= i < ts.len() ==> transfer_fits(#[trigger] ts[i])
}

/// A list of transfer points is read back as it was written.
pub proof fn lemma_transfers_round_trip(ts: Seq<TransferView>, rest: Seq<u8>)
    requires
        transfers_fit(ts),
    ensures
        dec_transfers(enc_transfers(ts) + rest, ts.len()) == Some((ts, rest)),
    decreases ts.len(),
{
    if ts.len() == 0 {
        assert(enc_transfers(ts) + rest =~= rest);
    } else {
        let tail = ts.drop_first();
        assert(transfers_fit(tail)) by {
            assert forall|i: int| 0 <= i < tail.len() implies transfer_fits(#[trigger] tail[i]) by {
                assert(tail[i] == ts[i + 1]);
            }
        }
        assert(transfer_fits(ts[0]));
        lemma_append_assoc(enc_transfer(ts[0]), enc_transfers(tail), rest);
        lemma_transfer_round_trip(ts[0], enc_transfers(tail) + rest);
        lemma_transfers_round_trip(tail, rest);
        assert(seq![ts[0]] + tail =~= ts);
    }
}

/// The bytes of the transfers of one route: its code, their number, and
/// they.
#[verifier::opaque]
pub open spec fn enc_entry(e: StoredEntry) -> Seq<u8> {
    enc_string(e.route_code) + (enc_u64(e.transfers.len() as u64) + enc_transfers(e.transfers))
}

/// The transfers of one route at the start of `b`, and what follows them.
#[verifier::opaque]
pub open spec fn dec_entry(b: Seq<u8>) -> Option<(StoredEntry, Seq<u8>)> {
    match dec_string(b) {
        Some((route_code, r1)) => match dec_u64(r1) {
            Some((n, r2)) => match dec_transfers(r2, n as nat) {
                Some((transfers, r3)) => Some((StoredEntry { route_code, transfers }, r3)),
                None => None,
            },
            None => None,
        },
        None => None,
    }
}

/// Whether the transfers of one route can be written.
pub open spec fn entry_fits(e: StoredEntry) -> bool {
    &&& string_fits(e.route_code)
    &&& e.transfers.len() <= u64::MAX
    &&& transfers_fit(e.transfers)
}

/// The transfers of one route are read back as they were written.
pub proof fn lemma_entry_round_trip(e: StoredEntry, rest: Seq<u8>)
    requires
        entry_fits(e),
    ensures
        dec_entry(enc_entry(e) + rest) == Some((e, rest)),
{
    reveal(enc_entry);
    reveal(dec_entry);
    let a = enc_string(e.route_code);
    let b = enc_u64(e.transfers.len() as u64);
    let c = enc_transfers(e.transfers);
    lemma_append_assoc(a, b + c, rest);
    lemma_append_assoc(b, c, rest);
    lemma_string_round_trip(e.route_code, b + (c + rest));
    lemma_u64_round_trip(e.transfers.len() as u64, c + rest);
    lemma_transfers_round_trip(e.transfers, rest);
}

/// The bytes of a list of entries, one after the other.
pub open spec fn enc_entries(es: Seq<StoredEntry>) -> Seq<u8>
    decreases es.len(),
{
    if es.len() == 0 {
        Seq::empty()
    } else {
        enc_entry(es[0]) + enc_entries(es.drop_first())
    }
}

/// The `n` entries at the start of `b`, and what follows them.
pub open spec fn dec_entries(b: Seq<u8>, n: nat) -> Option<(Seq<StoredEntry>, Seq<u8>)>
    decreases n,
{
    if n == 0 {
        Some((Seq::empty(), b))
    } else {
        match dec_entry(b) {
            Some((e, r)) => match dec_entries(r, (n - 1) as nat) {
                Some((es, r2)) => Some((seq![e] + es, r2)),
                None => None,
            },
            None => None,
        }
    }
}

/// Whether each of a list of entries can be written.
pub open spec fn entries_fit(es: Seq<StoredEntry>) -> bool {
    forall|i: int| 0 <= i < es.len() ==> entry_fits(#[trigger] es[i])
}

/// A list of entries is read back as it was written.
pub proof fn lemma_entries_round_trip(es: Seq<StoredEntry>, rest: Seq<u8>)
    requires
        entries_fit(es),
    ensures
        dec_entries(enc_entries(es) + rest, es.len()) == Some((es, rest)),
    decreases es.len(),
{
    if es.len() == 0 {
        assert(enc_entries(es) + rest =~= rest);
    } else {
        let tail = es.drop_first();
        assert(entries_fit(tail)) by {
            assert forall|i: int| 0 <= i < tail.len() implies entry_fits(#[trigger] tail[i]) by {
                assert(tail[i] == es[i + 1]);
            }
        }
        assert(entry_fits(es[0]));
        lemma_append_assoc(enc_entry(es[0]), enc_entries(tail), rest);
        lemma_entry_round_trip(es[0], enc_entries(tail) + rest);
        lemma_entries_round_trip(tail, rest);
        assert(seq![es[0]] + tail =~= es);
    }
}

/// A time as a number that is never negative.
pub open spec fn stamp(t: i64) -> u64 {
    (t + 0x8000_0000_0000_0000) as u64
}

/// The bytes of an adjacency: its version, its time, the number of its
/// entries, and they.
pub open spec fn enc_cache(c: CacheView) -> Seq<u8> {
    enc_u64(c.version as u64) + (enc_u64(stamp(c.last_updated)) + (enc_u64(c.entries.len() as u64)
        + enc_entries(c.entries)))
}

/// The adjacency that `b` holds, where `b` holds one and nothing more.
pub open spec fn dec_cache(b: Seq<u8>) -> Option<CacheView> {
    match dec_u64(b) {
        Some((version, r1)) => match dec_u64(r1) {
            Some((time, r2)) => match dec_u64(r2) {
                Some((n, r3)) => match dec_entries(r3, n as nat) {
                    Some((entries, r4)) => if version <= u32::MAX && r4.len() == 0 {
                        Some(
                            CacheView {
                                version: version as u32,
                                last_updated: (time - 0x8000_0000_0000_0000) as i64,
                                entries,
                            },
                        )
                    } else {
                        None
                    },
                    None => None,
                },
                None => None,
            },
            None => None,
        },
        None => None,
    }
}

/// Whether an adjacency can be written.
pub open spec fn cache_fits(c: CacheView) -> bool {
    c.entries.len() <= u64::MAX && entries_fit(c.entries)
}

/// An adjacency is read back as it was written: the same version and time,
/// the same route codes in the same order, and for each the same transfer
/// points, field by field.
pub proof fn lemma_cache_round_trip(c: CacheView)
    requires
        cache_fits(c),
    ensures
        dec_cache(enc_cache(c)) == Some(c),
{
    let a = enc_u64(c.version as u64);
    let b = enc_u64(stamp(c.last_updated));
    let n = enc_u64(c.entries.len() as u64);
    let e = enc_entries(c.entries);
    let none = Seq::<u8>::empty();
    assert(e + none =~= e);
    lemma_u64_round_trip(c.version as u64, b + (n + e));
    lemma_u64_round_trip(stamp(c.last_updated), n + e);
    lemma_u64_round_trip(c.entries.len() as u64, e);
    lemma_entries_round_trip(c.entries, none);
}

/// Appends the bytes of a list of transfer points.
pub fn write_transfers(out: &mut Vec<u8>, ts: &Vec<TransferPoint>)
    ensures
        final(out)@ == old(out)@ + enc_transfers(transfer_views_of(ts@)),
        transfers_fit(transfer_views_of(ts@)),
{
    let ghost views = transfer_views_of(ts@);
    let ghost start = out@;
    let mut k: usize = 0;
    assert(views.skip(0) =~= views);
    while k < ts.len()
        invariant
            k <= ts.len(),
            views == transfer_views_of(ts@),
            out@ + enc_transfers(views.skip(k as int)) == start + enc_transfers(views),
            forall|i: int| 0 <= i < k ==> transfer_fits(#[trigger] views[i]),
        decreases ts.len() - k,
    {
        let ghost before = out@;
        let ghost here = views.skip(k as int);
        proof {
            assert(here[0] == views[k as int]);
            assert(here.drop_first() =~= views.skip(k + 1));
            assert(views[k as int] == transfer_view(ts@[k as int]));
        }
        write_transfer(out, &ts[k]);
        proof {
            lemma_append_assoc(before, enc_transfer(views[k as int]), enc_transfers(views.skip(k + 1)));
        }
        k = k + 1;
    }
    assert(views.skip(ts.len() as int) =~= Seq::<TransferView>::empty());
    assert(out@ + Seq::<u8>::empty() =~= out@);
}

/// Reads `n` transfer points at `pos`.
pub fn read_transfers(bytes: &Vec<u8>, pos: usize, n: u64) -> (r: Option<(Vec<TransferPoint>, usize)>)
    requires
        pos <= bytes@.len(),
    ensures
        match dec_transfers(bytes@.skip(pos as int), n as nat) {
            Some((ts, rest)) => r matches Some(found) && transfer_views_of(found.0@) == ts
                && found.1 <= bytes@.len() && rest == bytes@.skip(found.1 as int),
            None => r is None,
        },
{
    let ghost whole = dec_transfers(bytes@.skip(pos as int), n as nat);
    let mut out: Vec<TransferPoint> = Vec::new();
    let mut at: usize = pos;
    let mut k: u64 = 0;
    assert(transfer_views_of(out@) =~= Seq::<TransferView>::empty());
    proof {
        match dec_transfers(bytes@.skip(at as int), (n - k) as nat) {
            Some((ts, rest)) => {
                assert(transfer_views_of(out@) + ts =~= ts);
            },
            None => {},
        }
    }
    while k < n
        invariant
            k <= n,
            at <= bytes@.len(),
            whole == dec_transfers(bytes@.skip(pos as int), n as nat),
            whole == match dec_transfers(bytes@.skip(at as int), (n - k) as nat) {
                Some((ts, rest)) => Some((transfer_views_of(out@) + ts, rest)),
                None => None,
            },
        decreases n - k,
    {
        let ghost acc = transfer_views_of(out@);
        match read_transfer(bytes, at) {
            Some((t, next)) => {
                proof {
                    match dec_transfers(bytes@.skip(next as int), (n - k - 1) as nat) {
                        Some((ts, rest)) => {
                            assert(acc.push(transfer_view(t)) + ts =~= acc + (seq![transfer_view(t)]
                                + ts));
                        },
                        None => {},
                    }
                }
                out.push(t);
                assert(transfer_views_of(out@) =~= acc.push(transfer_view(t)));
                at = next;
            },
            None => {
                return None;
            },
        }
        k = k + 1;
    }
    assert(transfer_views_of(out@) + Seq::<TransferView>::empty() =~= transfer_views_of(out@));
    Some((out, at))
}

/// What is stored of a list of entries.
pub open spec fn entry_views_of(es: Seq<CacheEntry>) -> Seq<StoredEntry> {
    es.map_values(|e: CacheEntry| entry_view(e))
}

/// Appends the bytes of the transfers of one route.
pub fn write_entry(out: &mut Vec<u8>, e: &CacheEntry)
    ensures
        final(out)@ == old(out)@ + enc_entry(entry_view(*e)),
        entry_fits(entry_view(*e)),
{
    reveal(enc_entry);
    write_string(out, &e.route_code);
    write_u64(out, e.transfers.len() as u64);
    write_transfers(out, &e.transfers);
    assert(out@ =~= old(out)@ + enc_entry(entry_view(*e)));
}

/// Reads the transfers of one route at `pos`.
pub fn read_entry(bytes: &Vec<u8>, pos: usize) -> (r: Option<(CacheEntry, usize)>)
    requires
        pos <= bytes@.len(),
    ensures
        match dec_entry(bytes@.skip(pos as int)) {
            Some((e, rest)) => r matches Some(found) && entry_view(found.0) == e && found.1
                <= bytes@.len() && rest == bytes@.skip(found.1 as int),
            None => r is None,
        },
{
    reveal(dec_entry);
    let (route_code, a1) = match read_string(bytes, pos) {
        Some(found) => found,
        None => {
            return None;
        },
    };
    let (n, a2) = match read_u64(bytes, a1) {
        Some(found) => found,
        None => {
            return None;
        },
    };
    let (transfers, a3) = match read_transfers(bytes, a2, n) {
        Some(found) => found,
        None => {
            return None;
        },
    };
    Some((CacheEntry { route_code, transfers }, a3))
}

/// Appends the bytes of a list of entries.
pub fn write_entries(out: &mut Vec<u8>, es: &Vec<CacheEntry>)
    ensures
        final(out)@ == old(out)@ + enc_entries(entry_views_of(es@)),
        entries_fit(entry_views_of(es@)),
{
    let ghost views = entry_views_of(es@);
    let ghost start = out@;
    let mut k: usize = 0;
    assert(views.skip(0) =~= views);
    while k < es.len()
        invariant
            k <= es.len(),
            views == entry_views_of(es@),
            out@ + enc_entries(views.skip(k as int)) == start + enc_entries(views),
            forall|i: int| 0 <= i < k ==> entry_fits(#[trigger] views[i]),
        decreases es.len() - k,
    {
        let ghost before = out@;
        let ghost here = views.skip(k as int);
        proof {
            assert(here[0] == views[k as int]);
            assert(here.drop_first() =~= views.skip(k + 1));
            assert(views[k as int] == entry_view(es@[k as int]));
        }
        write_entry(out, &es[k]);
        proof {
            lemma_append_assoc(before, enc_entry(views[k as int]), enc_entries(views.skip(k + 1)));
        }
        k = k + 1;
    }
    assert(views.skip(es.len() as int) =~= Seq::<StoredEntry>::empty());
    assert(out@ + Seq::<u8>::empty() =~= out@);
}

/// Reads `n` entries at `pos`.
pub fn read_entries(bytes: &Vec<u8>, pos: usize, n: u64) -> (r: Option<(Vec<CacheEntry>, usize)>)
    requires
        pos <= bytes@.len(),
    ensures
        match dec_entries(bytes@.skip(pos as int), n as nat) {
            Some((es, rest)) => r matches Some(found) && entry_views_of(found.0@) == es && found.1
                <= bytes@.len() && rest == bytes@.skip(found.1 as int),
            None => r is None,
        },
{
    let ghost whole = dec_entries(bytes@.skip(pos as int), n as nat);
    let mut out: Vec<CacheEntry> = Vec::new();
    let mut at: usize = pos;
    let mut k: u64 = 0;
    assert(entry_views_of(out@) =~= Seq::<StoredEntry>::empty());
    proof {
        match dec_entries(bytes@.skip(at as int), (n - k) as nat) {
            Some((es, rest)) => {
                assert(entry_views_of(out@) + es =~= es);
            },
            None => {},
        }
    }
    while k < n
        invariant
            k <= n,
            at <= bytes@.len(),
            whole == dec_entries(bytes@.skip(pos as int), n as nat),
            whole == match dec_entries(bytes@.skip(at as int), (n - k) as nat) {
                Some((es, rest)) => Some((entry_views_of(out@) + es, rest)),
                None => None,
            },
        decreases n - k,
    {
        let ghost acc = entry_views_of(out@);
        match read_entry(bytes, at) {
            Some((e, next)) => {
                proof {
                    match dec_entries(bytes@.skip(next as int), (n - k - 1) as nat) {
                        Some((es, rest)) => {
                            assert(acc.push(entry_view(e)) + es =~= acc + (seq![entry_view(e)] + es));
                        },
                        None => {},
                    }
                }
                out.push(e);
                assert(entry_views_of(out@) =~= acc.push(entry_view(e)));
                at = next;
            },
            None => {
                return None;
            },
        }
        k = k + 1;
    }
    assert(entry_views_of(out@) + Seq::<StoredEntry>::empty() =~= entry_views_of(out@));
    Some((out, at))
}

impl RouteIntersectionCache {
    /// A cache of `intersections`, computed at `now`, in the current version.
    pub fn new(intersections: Vec<CacheEntry>, now: i64) -> (r: Self)
        ensures
            r.version == 1,
            r.last_updated == now,
            r.intersections == intersections,
    {
        RouteIntersectionCache { version: 1, last_updated: now, intersections }
    }

    /// The bytes that store this adjacency.
    pub fn to_bytes(&self) -> (r: Vec<u8>)
        ensures
            r@ == enc_cache(self@),
            cache_fits(self@),
            dec_cache(r@) == Some(self@),
    {
        let mut out: Vec<u8> = Vec::new();
        write_u64(&mut out, self.version as u64);
        let time: u64 = (self.last_updated as i128 + 0x8000_0000_0000_0000i128) as u64;
        write_u64(&mut out, time);
        write_u64(&mut out, self.intersections.len() as u64);
        write_entries(&mut out, &self.intersections);
        proof {
            assert(out@ =~= enc_cache(self@));
            lemma_cache_round_trip(self@);
        }
        out
    }

    /// The adjacency that `bytes` store; nothing where they are not the
    /// bytes of one, whole and with nothing behind them.
    pub fn from_bytes(bytes: &Vec<u8>) -> (r: Option<Self>)
        ensures
            match dec_cache(bytes@) {
                Some(c) => r is Some && r->0@ == c,
                None => r is None,
            },
    {
        assert(bytes@.skip(0) =~= bytes@);
        let (version, a1) = match read_u64(bytes, 0) {
            Some(found) => found,
            None => {
                return None;
            },
        };
        let (time, a2) = match read_u64(bytes, a1) {
            Some(found) => found,
            None => {
                return None;
            },
        };
        let (n, a3) = match read_u64(bytes, a2) {
            Some(found) => found,
            None => {
                return None;
            },
        };
        let (intersections, a4) = match read_entries(bytes, a3, n) {
            Some(found) => found,
            None => {
                return None;
            },
        };
        if version > 0xffff_ffff || a4 != bytes.len() {
            return None;
        }
        let last_updated: i64 = (time as i128 - 0x8000_0000_0000_0000i128) as i64;
        Some(RouteIntersectionCache { version: version as u32, last_updated, intersections })
    }
}

} // verus!
