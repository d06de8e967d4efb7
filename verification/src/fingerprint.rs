//! The fingerprint generator: every peak is paired with the few peaks that
//! follow it, and each pair is hashed into a 32-bit address.

use crate::model::{Couple, FingerPrint, Peak};
use std::collections::HashMap;
use vstd::prelude::*;
use vstd::std_specs::hash::spec_hash_map_iter;
use vstd::std_specs::iter::IteratorSpec;

verus! {

broadcast use vstd::std_specs::hash::group_hash_axioms;

/// How many of the peaks that follow an anchor are paired with it.
pub const TARGET_ZONE_SIZE: usize = 5;

/// Bits of an address that lie below the target's frequency.
pub const MAX_DELTA_BITS: u32 = 14;

/// Bits of an address that lie below the anchor's frequency.
pub const ANCHOR_SHIFT: u32 = 23;

/// A count of milliseconds as a `u32`, held at the largest `u32`.
pub open spec fn saturated_ms(ms: int) -> u32 {
    if ms <= 0 {
        0
    } else if ms >= u32::MAX {
        u32::MAX
    } else {
        ms as u32
    }
}

/// The time of a peak in whole milliseconds.
pub open spec fn anchor_time_ms(peak: Peak) -> u32 {
    saturated_ms(peak.time_us as int / 1000)
}

/// Whole milliseconds from the anchor to the target; zero where the target
/// is not the later one.
pub open spec fn delta_ms(anchor: Peak, target: Peak) -> u32 {
    if target.time_us <= anchor.time_us {
        0
    } else {
        saturated_ms((target.time_us - anchor.time_us) / 1000)
    }
}

/// The three parts of an address in one word. Nothing is masked: a part too
/// wide for its field reaches into the field above it.
pub open spec fn pack_address(anchor_freq: u32, target_freq: u32, delta_ms: u32) -> u32 {
    (anchor_freq << ANCHOR_SHIFT) | (target_freq << MAX_DELTA_BITS) | delta_ms
}

/// The address of an anchor and a target peak.
pub open spec fn address_of(anchor: Peak, target: Peak) -> u32 {
    pack_address(anchor.freq as u32, target.freq as u32, delta_ms(anchor, target))
}

/// The row that one pair of peaks contributes to a fingerprint.
pub open spec fn entry_of(peaks: Seq<Peak>, song_id: i64, pair: (int, int)) -> (u32, Couple) {
    (
        address_of(peaks[pair.0], peaks[pair.1]),
        Couple { anchor_time_ms: anchor_time_ms(peaks[pair.0]), song_id },
    )
}

/// How many targets the anchor at index `i` has among `len` peaks.
pub open spec fn zone_width(i: int, len: int) -> int {
    if len - 1 - i < TARGET_ZONE_SIZE as int {
        if len - 1 - i < 0 {
            0
        } else {
            len - 1 - i
        }
    } else {
        TARGET_ZONE_SIZE as int
    }
}

/// The first `width` pairs of the anchor at index `i`, nearest target first.
pub open spec fn pairs_of_anchor(i: int, width: int) -> Seq<(int, int)> {
    Seq::new(
        if width < 0 {
            0nat
        } else {
            width as nat
        },
        |k: int| (i, i + 1 + k),
    )
}

/// The pairs of the first `anchors` anchors among `len` peaks, in the order
/// in which they are generated.
pub open spec fn pairings(len: int, anchors: int) -> Seq<(int, int)>
    decreases anchors,
{
    if anchors <= 0 {
        Seq::empty()
    } else {
        pairings(len, anchors - 1) + pairs_of_anchor(anchors - 1, zone_width(anchors - 1, len))
    }
}

/// The rows of the given pairs.
pub open spec fn entries_of(peaks: Seq<Peak>, song_id: i64, pairs: Seq<(int, int)>) -> Seq<
    (u32, Couple),
> {
    Seq::new(pairs.len(), |k: int| entry_of(peaks, song_id, pairs[k]))
}

/// Every row that a peak sequence generates, in generation order.
pub open spec fn generated_entries(peaks: Seq<Peak>, song_id: i64) -> Seq<(u32, Couple)> {
    entries_of(peaks, song_id, pairings(peaks.len() as int, peaks.len() as int))
}

/// The map that is left when the rows are written one after the other, a
/// later row replacing an earlier one of the same address.
pub open spec fn collapse(entries: Seq<(u32, Couple)>) -> Map<u32, Couple>
    decreases entries.len(),
{
    if entries.len() == 0 {
        Map::empty()
    } else {
        collapse(entries.drop_last()).insert(entries.last().0, entries.last().1)
    }
}

/// The addresses of the rows, in row order.
pub open spec fn addresses_of(entries: Seq<(u32, Couple)>) -> Seq<u32> {
    Seq::new(entries.len(), |k: int| entries[k].0)
}

/// `sum over i < anchors of min(TARGET_ZONE_SIZE, len - 1 - i)`.
pub open spec fn pair_count(len: int, anchors: int) -> int
    decreases anchors,
{
    if anchors <= 0 {
        0
    } else {
        pair_count(len, anchors - 1) + zone_width(anchors - 1, len)
    }
}

/// Whole milliseconds of a count of microseconds, held at the largest `u32`.
pub fn millis_of(micros: u64) -> (ms: u32)
    ensures
        ms == saturated_ms(micros as int / 1000),
{
    let ms: u64 = micros / 1000;
    if ms >= u32::MAX as u64 {
        u32::MAX
    } else {
        ms as u32
    }
}

/// Hashes an anchor and a target peak into an address: the anchor's
/// frequency from bit 23 up, the target's from bit 14 up, and the
/// milliseconds between them below.
pub fn create_address(anchor: &Peak, target: &Peak) -> (address: u32)
    ensures
        address == address_of(*anchor, *target),
{
    let anchor_freq: u32 = #[verifier::truncate]
    (anchor.freq as u32);
    let target_freq: u32 = #[verifier::truncate]
    (target.freq as u32);
    let delta: u32 = if target.time_us <= anchor.time_us {
        0
    } else {
        millis_of(target.time_us - anchor.time_us)
    };
    (anchor_freq << ANCHOR_SHIFT) | (target_freq << MAX_DELTA_BITS) | delta
}

/// Generates the fingerprint of a peak sequence: every peak is the anchor of
/// a pair with each of the next `TARGET_ZONE_SIZE` peaks, and each pair
/// writes its row under its address. Of several pairs with one address the
/// last one generated stays.
pub fn fingerprint(peaks: Vec<Peak>, song_id: i64) -> (fingerprints: HashMap<u32, Couple>)
    ensures
        fingerprints@ == collapse(generated_entries(peaks@, song_id)),
{
    let mut fingerprints: HashMap<u32, Couple> = HashMap::new();
    let n: usize = peaks.len();
    let ghost mut pairs: Seq<(int, int)> = Seq::empty();
    let mut i: usize = 0;
    while i < n
        invariant
            n == peaks.len(),
            i <= n,
            pairs == pairings(n as int, i as int),
            fingerprints@ == collapse(entries_of(peaks@, song_id, pairs)),
        decreases n - i,
    {
        let end: usize = if n - (i + 1) > TARGET_ZONE_SIZE {
            i + 1 + TARGET_ZONE_SIZE
        } else {
            n
        };
        let ghost row_start = pairs;
        let mut j: usize = i + 1;
        while j < end
            invariant
                n == peaks.len(),
                i < n,
                i + 1 <= j <= end <= n,
                end - (i + 1) == zone_width(i as int, n as int),
                pairs == row_start + pairs_of_anchor(i as int, j - (i + 1)),
                fingerprints@ == collapse(entries_of(peaks@, song_id, pairs)),
            decreases end - j,
        {
            let address: u32 = create_address(&peaks[i], &peaks[j]);
            let anchor_time: u32 = millis_of(peaks[i].time_us);
            fingerprints.insert(address, Couple { anchor_time_ms: anchor_time, song_id });
            proof {
                let longer = pairs.push((i as int, j as int));
                assert(longer =~= row_start + pairs_of_anchor(i as int, j + 1 - (i + 1)));
                assert(entries_of(peaks@, song_id, longer).drop_last() =~= entries_of(
                    peaks@,
                    song_id,
                    pairs,
                ));
                pairs = longer;
            }
            j = j + 1;
        }
        i = i + 1;
    }
    fingerprints
}

/// The rows hold every address of the fingerprint once, each with its couple.
pub open spec fn are_rows_of(rows: Seq<FingerPrint>, fingerprints: Map<u32, Couple>) -> bool {
    &&& rows.len() == fingerprints.dom().len()
    &&& forall|i: int, j: int| 0 <= i < j < rows.len() ==> rows[i].address != rows[j].address
    &&& forall|i: int|
        0 <= i < rows.len() ==> fingerprints.contains_key((#[trigger] rows[i]).address)
            && fingerprints[rows[i].address] == rows[i].couple()
}

/// Lists the rows to persist for a fingerprint: one for each address.
pub fn fingerprint_rows(fingerprints: &HashMap<u32, Couple>) -> (rows: Vec<FingerPrint>)
    ensures
        are_rows_of(rows@, fingerprints@),
{
    let mut rows: Vec<FingerPrint> = Vec::new();
    for entry in it: fingerprints.iter()
        invariant
            rows.len() == it.index(),
            it.seq().no_duplicates(),
            forall|i: int|
                0 <= i < it.index() ==> (#[trigger] rows[i]).address == *it.seq()[i].0
                    && rows[i].couple() == *it.seq()[i].1,
    {
        let (address, couple) = entry;
        rows.push(FingerPrint::new(*address, couple.anchor_time_ms, couple.song_id));
    }
    proof {
        let all = spec_hash_map_iter(fingerprints).remaining();
        assert(rows.len() == all.len());
        assert forall|i: int| 0 <= i < rows.len() implies fingerprints@.contains_key(
            (#[trigger] rows[i]).address,
        ) && fingerprints@[rows[i].address] == rows[i].couple() by {
            assert(fingerprints@.contains_key(*all[i].0));
        }
        assert forall|i: int, j: int| 0 <= i < j < rows.len() implies rows[i].address
            != rows[j].address by {
            assert(fingerprints@.contains_key(*all[i].0));
            assert(fingerprints@.contains_key(*all[j].0));
            if rows[i].address == rows[j].address {
                assert(all[i] == all[j]);
            }
        }
    }
    rows
}

/// The three fields of an address: the anchor's frequency from bit 23 up,
/// nine bits of the target's frequency from bit 14 up, and the milliseconds
/// in the low fourteen bits.
pub open spec fn fields_of(address: u32) -> (u32, u32, u32) {
    (address >> ANCHOR_SHIFT, (address >> MAX_DELTA_BITS) & 0x1ff, address & 0x3fff)
}

/// Splits an address into its three fields.
pub fn split_address(address: u32) -> (fields: (u32, u32, u32))
    ensures
        fields == fields_of(address),
{
    (address >> ANCHOR_SHIFT, (address >> MAX_DELTA_BITS) & 0x1ff, address & 0x3fff)
}

/// Packs an address whose three parts fit their fields, and refuses the
/// others: a frequency from bin 512 on, or a gap from 16384 ms on.
pub fn pack_checked(anchor_freq: u32, target_freq: u32, delta: u32) -> (address: Option<u32>)
    ensures
        address is Some <==> anchor_freq < 512 && target_freq < 512 && delta < 16384,
        address matches Some(packed) ==> packed == pack_address(anchor_freq, target_freq, delta)
            && fields_of(packed) == (anchor_freq, target_freq, delta),
{
    if anchor_freq < 512 && target_freq < 512 && delta < 16384 {
        proof {
            lemma_fields_round_trip(anchor_freq, target_freq, delta);
        }
        Some((anchor_freq << ANCHOR_SHIFT) | (target_freq << MAX_DELTA_BITS) | delta)
    } else {
        None
    }
}

/// Parts that fit their fields are read back unchanged: below bin 512 and
/// below 16384 ms, different pairs of frequencies and gaps have different
/// addresses.
pub proof fn lemma_fields_round_trip(anchor_freq: u32, target_freq: u32, delta: u32)
    requires
        anchor_freq < 512,
        target_freq < 512,
        delta < 16384,
    ensures
        fields_of(pack_address(anchor_freq, target_freq, delta)) == (
            anchor_freq,
            target_freq,
            delta,
        ),
{
    let address = (anchor_freq << 23u32) | (target_freq << 14u32) | delta;
    assert(address >> 23u32 == anchor_freq) by (bit_vector)
        requires
            address == (anchor_freq << 23u32) | (target_freq << 14u32) | delta,
            anchor_freq < 512,
            target_freq < 512,
            delta < 16384,
    ;
    assert((address >> 14u32) & 0x1ff == target_freq) by (bit_vector)
        requires
            address == (anchor_freq << 23u32) | (target_freq << 14u32) | delta,
            anchor_freq < 512,
            target_freq < 512,
            delta < 16384,
    ;
    assert(address & 0x3fff == delta) by (bit_vector)
        requires
            address == (anchor_freq << 23u32) | (target_freq << 14u32) | delta,
            anchor_freq < 512,
            target_freq < 512,
            delta < 16384,
    ;
}

/// The anchor times of a fingerprint, address by address: what a query
/// needs of it.
pub open spec fn anchor_times(fingerprints: Map<u32, Couple>) -> Map<u32, u32> {
    Map::new(
        |a: u32| fingerprints.contains_key(a),
        |a: u32| fingerprints[a].anchor_time_ms,
    )
}

/// The rows of the same pairs of peaks, written for two songs, leave the
/// same anchor times under the same addresses.
pub proof fn lemma_rows_ignore_song(peaks: Seq<Peak>, id1: i64, id2: i64, pairs: Seq<(int, int)>)
    ensures
        anchor_times(collapse(entries_of(peaks, id1, pairs))) == anchor_times(
            collapse(entries_of(peaks, id2, pairs)),
        ),
    decreases pairs.len(),
{
    let rows1 = entries_of(peaks, id1, pairs);
    let rows2 = entries_of(peaks, id2, pairs);
    if pairs.len() > 0 {
        lemma_rows_ignore_song(peaks, id1, id2, pairs.drop_last());
        assert(rows1.drop_last() =~= entries_of(peaks, id1, pairs.drop_last()));
        assert(rows2.drop_last() =~= entries_of(peaks, id2, pairs.drop_last()));
        assert(rows1.last().0 == rows2.last().0);
        assert(rows1.last().1.anchor_time_ms == rows2.last().1.anchor_time_ms);
        let before1 = collapse(rows1.drop_last());
        let before2 = collapse(rows2.drop_last());
        assert forall|a: u32|
            anchor_times(before1).contains_key(a) <==> anchor_times(before2).contains_key(a) by {}
        assert forall|a: u32| #[trigger]
            collapse(rows1).contains_key(a) <==> collapse(rows2).contains_key(a) by {
            assert(anchor_times(before1).contains_key(a) <==> anchor_times(before2).contains_key(
                a,
            ));
        }
        assert forall|a: u32| #[trigger] collapse(rows1).contains_key(a) implies collapse(
            rows1,
        )[a].anchor_time_ms == collapse(rows2)[a].anchor_time_ms by {
            if a != rows1.last().0 {
                assert(anchor_times(before1).contains_key(a));
                assert(anchor_times(before1)[a] == anchor_times(before2)[a]);
            }
        }
    }
    assert(anchor_times(collapse(rows1)) =~= anchor_times(collapse(rows2)));
}

/// The anchor times of a fingerprint do not depend on the song that it was
/// generated for.
pub proof fn lemma_anchor_times_ignore_song(peaks: Seq<Peak>, id1: i64, id2: i64)
    ensures
        anchor_times(collapse(generated_entries(peaks, id1))) == anchor_times(
            collapse(generated_entries(peaks, id2)),
        ),
{
    lemma_rows_ignore_song(
        peaks,
        id1,
        id2,
        pairings(peaks.len() as int, peaks.len() as int),
    );
}

/// Equal pairs of peaks have equal addresses. Where the milliseconds fit
/// their field, they fill the low `MAX_DELTA_BITS` bits of the address and
/// touch no bit above: two addresses of the same frequencies agree there.
pub proof fn lemma_delta_fills_low_bits(anchor_freq: u32, target_freq: u32, d1: u32, d2: u32)
    requires
        d1 < 16384,
        d2 < 16384,
    ensures
        pack_address(anchor_freq, target_freq, d1) >> MAX_DELTA_BITS == pack_address(
            anchor_freq,
            target_freq,
            d2,
        ) >> MAX_DELTA_BITS,
        pack_address(anchor_freq, target_freq, d1) & 0x3fff == d1,
        d1 != d2 ==> pack_address(anchor_freq, target_freq, d1) != pack_address(
            anchor_freq,
            target_freq,
            d2,
        ),
{
    assert(((anchor_freq << 23u32) | (target_freq << 14u32) | d1) >> 14u32 == ((anchor_freq
        << 23u32) | (target_freq << 14u32) | d2) >> 14u32) by (bit_vector)
        requires
            d1 < 16384,
            d2 < 16384,
    ;
    assert(((anchor_freq << 23u32) | (target_freq << 14u32) | d1) & 0x3fff == d1) by (bit_vector)
        requires
            d1 < 16384,
    ;
    assert(((anchor_freq << 23u32) | (target_freq << 14u32) | d2) & 0x3fff == d2) by (bit_vector)
        requires
            d2 < 16384,
    ;
}

/// The address of a pair of peaks depends on nothing but the two peaks.
pub proof fn lemma_address_deterministic(a1: Peak, t1: Peak, a2: Peak, t2: Peak)
    requires
        a1 == a2,
        t1 == t2,
    ensures
        address_of(a1, t1) == address_of(a2, t2),
{
}

/// A peak sequence of length `L` generates `sum over i of min(5, L - 1 - i)`
/// rows.
pub proof fn lemma_pair_count(len: int, anchors: int)
    requires
        0 <= anchors <= len,
    ensures
        pairings(len, anchors).len() == pair_count(len, anchors),
        forall|k: int|
            0 <= k < pairings(len, anchors).len() ==> 0 <= (#[trigger] pairings(
                len,
                anchors,
            )[k]).0 < pairings(len, anchors)[k].1 < len,
    decreases anchors,
{
    if anchors > 0 {
        lemma_pair_count(len, anchors - 1);
    }
}

/// The addresses that a collapsed map knows are those of its rows; there are
/// at most as many as rows, and exactly as many if and only if no two rows
/// share an address.
pub proof fn lemma_collapse_size(entries: Seq<(u32, Couple)>)
    ensures
        collapse(entries).dom().finite(),
        forall|a: u32| #[trigger]
            collapse(entries).contains_key(a) <==> addresses_of(entries).contains(a),
        collapse(entries).dom().len() <= entries.len(),
        collapse(entries).dom().len() == entries.len() <==> addresses_of(
            entries,
        ).no_duplicates(),
    decreases entries.len(),
{
    if entries.len() > 0 {
        let shorter = entries.drop_last();
        let a = entries.last().0;
        lemma_collapse_size(shorter);
        let addresses = addresses_of(entries);
        let addresses_shorter = addresses_of(shorter);
        assert(addresses.drop_last() =~= addresses_shorter);
        assert(addresses.last() == a);
        assert forall|b: u32| #[trigger]
            collapse(entries).contains_key(b) <==> addresses.contains(b) by {
            if addresses_shorter.contains(b) {
                let i = choose|i: int| 0 <= i < addresses_shorter.len() && addresses_shorter[i] == b;
                assert(addresses[i] == b);
            }
            if addresses.contains(b) && b != a {
                let i = choose|i: int| 0 <= i < addresses.len() && addresses[i] == b;
                assert(addresses_shorter[i] == b);
            }
            assert(addresses[addresses.len() - 1] == a);
        }
        if addresses_shorter.contains(a) {
            let i = choose|i: int| 0 <= i < addresses_shorter.len() && addresses_shorter[i] == a;
            assert(addresses[i] == addresses[addresses.len() - 1]);
            assert(collapse(shorter).contains_key(a));
            assert(collapse(entries).dom() =~= collapse(shorter).dom());
        } else {
            assert(!collapse(shorter).contains_key(a));
            assert(collapse(entries).dom() =~= collapse(shorter).dom().insert(a));
            if addresses_shorter.no_duplicates() {
                assert forall|i: int, j: int|
                    0 <= i < addresses.len() && 0 <= j < addresses.len() && i != j implies addresses[i]
                    != addresses[j] by {
                    if i < addresses_shorter.len() {
                        assert(addresses_shorter[i] == addresses[i]);
                    }
                    if j < addresses_shorter.len() {
                        assert(addresses_shorter[j] == addresses[j]);
                    }
                }
            }
            if addresses.no_duplicates() {
                assert forall|i: int, j: int|
                    0 <= i < addresses_shorter.len() && 0 <= j < addresses_shorter.len() && i
                        != j implies addresses_shorter[i] != addresses_shorter[j] by {
                    assert(addresses_shorter[i] == addresses[i]);
                    assert(addresses_shorter[j] == addresses[j]);
                }
            }
        }
    } else {
        assert(collapse(entries).dom() =~= Set::<u32>::empty());
    }
}

/// Of the rows that share an address, the last one stays.
pub proof fn lemma_last_write_wins(entries: Seq<(u32, Couple)>, k: int)
    requires
        0 <= k < entries.len(),
        forall|later: int| k < later < entries.len() ==> entries[later].0 != entries[k].0,
    ensures
        collapse(entries).contains_key(entries[k].0),
        collapse(entries)[entries[k].0] == entries[k].1,
    decreases entries.len(),
{
    if k < entries.len() - 1 {
        assert(entries[entries.len() - 1].0 != entries[k].0);
        lemma_last_write_wins(entries.drop_last(), k);
    }
}

/// The size of a fingerprint: the rows generated number
/// `sum over i of min(5, L - 1 - i)`, the fingerprint holds at most that many
/// addresses, and exactly that many if and only if no two rows collide.
pub proof fn lemma_fingerprint_size(peaks: Seq<Peak>, song_id: i64)
    ensures
        generated_entries(peaks, song_id).len() == pair_count(
            peaks.len() as int,
            peaks.len() as int,
        ),
        collapse(generated_entries(peaks, song_id)).dom().finite(),
        collapse(generated_entries(peaks, song_id)).dom().len() <= pair_count(
            peaks.len() as int,
            peaks.len() as int,
        ),
        collapse(generated_entries(peaks, song_id)).dom().len() == pair_count(
            peaks.len() as int,
            peaks.len() as int,
        ) <==> addresses_of(generated_entries(peaks, song_id)).no_duplicates(),
{
    lemma_pair_count(peaks.len() as int, peaks.len() as int);
    lemma_collapse_size(generated_entries(peaks, song_id));
}

} // verus!
