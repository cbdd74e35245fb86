use vstd::prelude::*;
use std::collections::BTreeMap;
use vstd::std_specs::btree::{into_iter, spec_btree_map_iter};
use vstd::std_specs::iter::IteratorSpec;
use crate::config::Configuration;
use crate::ordering::{lemma_increasing_u32, lemma_u32_keys_are_ordered};

verus! {

/// The spectrum entries in the order the map is walked: by increasing frequency.
pub open spec fn map_entries<V>(map: &BTreeMap<u32, V>) -> Seq<(u32, V)> {
    into_iter(spec_btree_map_iter(map))
}

/// `entries` lists the pairs of `m`, each once, by strictly increasing key.
pub open spec fn is_sorted_walk<V>(entries: Seq<(u32, V)>, m: Map<u32, V>) -> bool {
    &&& entries.len() == m.dom().len()
    &&& forall|a: int, b: int| 0 <= a < b < entries.len() ==> entries[a].0 < entries[b].0
    &&& forall|i: int| 0 <= i < entries.len() ==> m.contains_key(#[trigger] entries[i].0) && m[entries[i].0] == entries[i].1
    &&& forall|k: u32| m.contains_key(k) ==> exists|i: int| 0 <= i < entries.len() && #[trigger] entries[i].0 == k
}

/// A map has only one sorted walk, so the bands depend on the map's contents alone.
pub proof fn lemma_sorted_walk_unique<V>(first: Seq<(u32, V)>, second: Seq<(u32, V)>, m: Map<u32, V>)
    requires
        m.dom().finite(),
        is_sorted_walk(first, m),
        is_sorted_walk(second, m),
    ensures
        first == second,
    decreases first.len(),
{
    if first.len() == 0 {
        assert(first =~= second);
    } else {
        let k = first[0].0;
        assert(m.contains_key(k));
        let j = choose|j: int| 0 <= j < second.len() && #[trigger] second[j].0 == k;
        let k2 = second[0].0;
        assert(m.contains_key(k2));
        let i = choose|i: int| 0 <= i < first.len() && #[trigger] first[i].0 == k2;
        if j > 0 {
            assert(k2 < k);
            if i > 0 {
                assert(first[0].0 < first[i].0);
            }
        }
        assert(first[0] == second[0]);
        let rest = m.remove(k);
        assert(rest.dom() =~= m.dom().remove(k));
        assert forall|e: Seq<(u32, V)>| is_sorted_walk(e, m) && e.len() > 0 && e[0].0 == k implies is_sorted_walk(
            #[trigger] e.drop_first(),
            rest,
        ) by {
            let tail = e.drop_first();
            assert forall|a: int, b: int| 0 <= a < b < tail.len() implies tail[a].0 < tail[b].0 by {
                assert(tail[a] == e[a + 1]);
                assert(tail[b] == e[b + 1]);
            }
            assert forall|i: int| 0 <= i < tail.len() implies rest.contains_key(#[trigger] tail[i].0)
                && rest[tail[i].0] == tail[i].1 by {
                assert(tail[i] == e[i + 1]);
                assert(e[0].0 < e[i + 1].0);
            }
            assert forall|x: u32| rest.contains_key(x) implies exists|i: int|
                0 <= i < tail.len() && #[trigger] tail[i].0 == x by {
                assert(m.contains_key(x));
                let i = choose|i: int| 0 <= i < e.len() && #[trigger] e[i].0 == x;
                assert(i > 0);
                assert(tail[i - 1] == e[i]);
            }
        }
        assert(is_sorted_walk(first.drop_first(), rest));
        assert(is_sorted_walk(second.drop_first(), rest));
        lemma_sorted_walk_unique(first.drop_first(), second.drop_first(), rest);
        assert forall|i: int| 0 <= i < first.len() implies first[i] == second[i] by {
            if i > 0 {
                assert(first[i] == first.drop_first()[i - 1]);
                assert(second[i] == second.drop_first()[i - 1]);
            }
        }
        assert(first =~= second);
    }
}

/// The state of the band assignment after walking `entries`: the band being filled,
/// whether the walk has stopped, and the bands so far.
pub open spec fn band_run<V>(entries: Seq<(u32, V)>, width: int, count: int, zero: V) -> (
    int,
    bool,
    Seq<Seq<V>>,
)
    decreases entries.len(),
{
    if entries.len() == 0 {
        (0, false, Seq::new(count as nat, |i: int| seq![zero]))
    } else {
        let (band, stopped, bands) = band_run(entries.drop_last(), width, count, zero);
        let key = entries.last().0;
        let value = entries.last().1;
        if stopped {
            (band, true, bands)
        } else if key >= (band + 1) * width {
            if band < count - 1 {
                (band + 1, false, bands.update(band + 1, bands[band + 1].push(value)))
            } else {
                (band, true, bands)
            }
        } else {
            (band, false, bands.update(band, bands[band].push(value)))
        }
    }
}

/// The bands that a spectrum is split into: `items` bands, each starting with `zero`,
/// over frequencies in steps of `viewed / items`.
pub open spec fn representation<V>(entries: Seq<(u32, V)>, viewed: u32, items: u32, zero: V) -> Seq<Seq<V>> {
    band_run(entries, (viewed / items) as int, items as int, zero).2
}


/// The values of the spectrum entries, in walk order.
pub open spec fn spectrum_values<V>(entries: Seq<(u32, V)>) -> Seq<V> {
    entries.map_values(|e: (u32, V)| e.1)
}

/// The values that the bands hold after their leading `zero`, band after band.
pub open spec fn spread<V>(bands: Seq<Seq<V>>) -> Seq<V>
    decreases bands.len(),
{
    if bands.len() == 0 {
        Seq::empty()
    } else {
        spread(bands.drop_last()) + bands.last().drop_first()
    }
}

/// Pushing onto the last band that holds values appends to the spread.
proof fn lemma_spread_push<V>(bands: Seq<Seq<V>>, band: int, value: V)
    requires
        0 <= band < bands.len(),
        bands[band].len() >= 1,
        forall|i: int| band < i < bands.len() ==> (#[trigger] bands[i]).len() == 1,
    ensures
        spread(bands.update(band, bands[band].push(value))) == spread(bands).push(value),
    decreases bands.len(),
{
    let updated = bands.update(band, bands[band].push(value));
    if band == bands.len() - 1 {
        assert(updated.drop_last() =~= bands.drop_last());
        assert(updated.last().drop_first() =~= bands.last().drop_first().push(value));
    } else {
        lemma_spread_push(bands.drop_last(), band, value);
        assert(updated.drop_last() =~= bands.drop_last().update(band, bands[band].push(value)));
        assert(updated.last() == bands.last());
        assert(bands.last().drop_first() =~= Seq::<V>::empty());
    }
}

/// Shape of the walk: there are always `count` bands, each led by `zero`; the band being
/// filled is one of them, and the bands after it hold only their `zero`.
pub proof fn lemma_band_run_shape<V>(entries: Seq<(u32, V)>, width: int, count: int, zero: V)
    requires
        count > 0,
    ensures
        ({
            let (band, stopped, bands) = band_run(entries, width, count, zero);
            &&& bands.len() == count
            &&& 0 <= band < count
            &&& forall|i: int| 0 <= i < count ==> (#[trigger] bands[i]).len() >= 1 && bands[i][0] == zero
            &&& forall|i: int| band < i < count ==> #[trigger] bands[i] == seq![zero]
        }),
    decreases entries.len(),
{
    if entries.len() > 0 {
        lemma_band_run_shape(entries.drop_last(), width, count, zero);
    }
}

/// Nothing is lost or reordered: unless the walk stopped early, the bands hold every value
/// of the spectrum, in order of frequency.
pub proof fn lemma_band_run_keeps_values<V>(entries: Seq<(u32, V)>, width: int, count: int, zero: V)
    requires
        count > 0,
        !band_run(entries, width, count, zero).1,
    ensures
        spread(band_run(entries, width, count, zero).2) == spectrum_values(entries),
    decreases entries.len(),
{
    let bands0 = Seq::new(count as nat, |i: int| seq![zero]);
    if entries.len() == 0 {
        assert forall|k: nat| k <= count implies spread(#[trigger] bands0.take(k as int)) =~= Seq::<V>::empty() by {
            lemma_spread_of_leading_zeros(bands0, k, zero);
        }
        assert(bands0.take(count) =~= bands0);
    } else {
        let prefix = entries.drop_last();
        lemma_band_run_shape(prefix, width, count, zero);
        lemma_band_run_keeps_values(prefix, width, count, zero);
        let (band, stopped, bands) = band_run(prefix, width, count, zero);
        let value = entries.last().1;
        if entries.last().0 >= (band + 1) * width {
            lemma_spread_push(bands, band + 1, value);
        } else {
            lemma_spread_push(bands, band, value);
        }
        assert(spectrum_values(entries) =~= spectrum_values(prefix).push(value));
    }
}

/// Bands that hold only their `zero` add nothing to the spread.
proof fn lemma_spread_of_leading_zeros<V>(bands: Seq<Seq<V>>, k: nat, zero: V)
    requires
        k <= bands.len(),
        forall|i: int| 0 <= i < bands.len() ==> #[trigger] bands[i] == seq![zero],
    ensures
        spread(bands.take(k as int)) =~= Seq::<V>::empty(),
    decreases k,
{
    if k > 0 {
        lemma_spread_of_leading_zeros(bands, (k - 1) as nat, zero);
        assert(bands.take(k as int).drop_last() =~= bands.take(k - 1));
        assert(bands.take(k as int).last().drop_first() =~= Seq::<V>::empty());
    }
}

/// An early stop only cuts the spectrum: the bands are those of a prefix of the entries
/// that was walked without stopping.
pub proof fn lemma_band_run_stops_on_prefix<V>(entries: Seq<(u32, V)>, width: int, count: int, zero: V)
    ensures
        exists|k: int|
            0 <= k <= entries.len() && !(#[trigger] band_run(entries.take(k), width, count, zero)).1
                && band_run(entries.take(k), width, count, zero).2 == band_run(entries, width, count, zero).2,
    decreases entries.len(),
{
    let full = band_run(entries, width, count, zero);
    if entries.len() == 0 {
        assert(entries.take(0) =~= entries);
        assert(!band_run(entries.take(0), width, count, zero).1);
    } else {
        let prefix = entries.drop_last();
        if !full.1 {
            assert(entries.take(entries.len() as int) =~= entries);
            assert(!band_run(entries.take(entries.len() as int), width, count, zero).1);
        } else if !band_run(prefix, width, count, zero).1 {
            assert(entries.take(prefix.len() as int) =~= prefix);
            assert(!band_run(entries.take(prefix.len() as int), width, count, zero).1);
        } else {
            lemma_band_run_stops_on_prefix(prefix, width, count, zero);
            let k = choose|k: int|
                0 <= k <= prefix.len() && !(#[trigger] band_run(prefix.take(k), width, count, zero)).1
                    && band_run(prefix.take(k), width, count, zero).2 == band_run(prefix, width, count, zero).2;
            assert(prefix.take(k) =~= entries.take(k));
            assert(!band_run(entries.take(k), width, count, zero).1);
        }
    }
}

/// A spectrum whose frequencies all lie below `count * width` is never cut.
pub proof fn lemma_band_run_complete_below_limit<V>(entries: Seq<(u32, V)>, width: int, count: int, zero: V)
    requires
        count > 0,
        forall|j: int| 0 <= j < entries.len() ==> (#[trigger] entries[j]).0 < count * width,
    ensures
        !band_run(entries, width, count, zero).1,
    decreases entries.len(),
{
    if entries.len() > 0 {
        let prefix = entries.drop_last();
        assert forall|j: int| 0 <= j < prefix.len() implies (#[trigger] prefix[j]).0 < count * width by {
            assert(prefix[j] == entries[j]);
        }
        lemma_band_run_complete_below_limit(prefix, width, count, zero);
        lemma_band_run_shape(prefix, width, count, zero);
        let band = band_run(prefix, width, count, zero).0;
        if band == count - 1 {
            assert((band + 1) * width == count * width);
        }
        assert(entries.last() == entries[entries.len() - 1]);
    }
}

/// For a positive width, a frequency reaches the start of band `b + 1` exactly when its band
/// number `key / width` is at least `b + 1`.
proof fn lemma_band_threshold(key: int, band: int, width: int)
    requires
        width > 0,
        key >= 0,
        band >= 0,
    ensures
        (key >= (band + 1) * width) == (key / width >= band + 1),
{
    vstd::arithmetic::div_mod::lemma_fundamental_div_mod(key, width);
    vstd::arithmetic::div_mod::lemma_mod_pos_bound(key, width);
    let q = key / width;
    let r = key % width;
    assert((key >= (band + 1) * width) == (q >= band + 1)) by (nonlinear_arith)
        requires key == width * q + r, 0 <= r < width, width > 0;
}

/// When the frequencies rise without skipping a band (each band number `key / width` is at
/// most one more than the one before, starting from band 0 or 1) and stay below
/// `count * width`, every value lands in the band its frequency falls in: band `key / width`,
/// which holds the frequencies from `b * width` up to `(b + 1) * width`.
pub proof fn lemma_band_is_frequency_band<V>(entries: Seq<(u32, V)>, j: int, width: int, count: int, zero: V)
    requires
        width > 0,
        count > 0,
        0 <= j < entries.len(),
        forall|a: int, b: int| 0 <= a < b < entries.len() ==> entries[a].0 < entries[b].0,
        forall|i: int| 0 <= i < entries.len() ==> (#[trigger] entries[i]).0 < count * width,
        (entries[0].0 as int) / width <= 1,
        forall|i: int| 0 < i < entries.len() ==> (#[trigger] entries[i]).0 as int / width <= (entries[i - 1].0 as int) / width + 1,
    ensures
        band_of(entries, j, width, count, zero) == (entries[j].0 as int) / width,
    decreases j,
{
    let here = entries.take(j + 1);
    assert(here.drop_last() =~= entries.take(j));
    assert(here.last() == entries[j]);
    let key = entries[j].0 as int;
    assert forall|i: int| 0 <= i < here.len() implies (#[trigger] here[i]).0 < count * width by {
        assert(here[i] == entries[i]);
    }
    lemma_band_run_complete_below_limit(here, width, count, zero);
    vstd::arithmetic::div_mod::lemma_fundamental_div_mod(key, width);
    vstd::arithmetic::div_mod::lemma_mod_pos_bound(key, width);
    let q = key / width;
    vstd::arithmetic::div_mod::lemma_div_pos_is_pos(key, width);
    assert(q < count) by (nonlinear_arith)
        requires key == width * q + key % width, 0 <= key % width, key < count * width, width > 0;
    if j == 0 {
        assert(entries.take(0) =~= Seq::<(u32, V)>::empty());
        lemma_band_threshold(key, 0, width);
        assert(band_run(entries.take(0), width, count, zero).0 == 0);
        assert(!band_run(entries.take(0), width, count, zero).1);
        if key >= 1 * width {
            assert(q == 1);
        } else {
            assert(q == 0);
        }
    } else {
        lemma_band_is_frequency_band(entries, j - 1, width, count, zero);
        assert(entries.take(j) =~= entries.take((j - 1) + 1));
        let prev = entries[j - 1].0 as int;
        let b = prev / width;
        assert(band_run(entries.take(j), width, count, zero).0 == b);
        lemma_band_run_complete_below_limit(entries.take(j), width, count, zero);
        vstd::arithmetic::div_mod::lemma_div_is_ordered(prev, key, width);
        vstd::arithmetic::div_mod::lemma_div_pos_is_pos(prev, width);
        lemma_band_threshold(key, b, width);
        assert(q <= b + 1);
        assert(b <= q);
        assert(!band_run(entries.take(j), width, count, zero).1);
        if key >= (b + 1) * width {
            assert(q == b + 1);
            assert(b < count - 1);
        } else {
            assert(q == b);
        }
    }
}

/// One step of the walk. Let `b` be the band being filled before entry `j`. An entry below the
/// end of band `b` (frequency under `(b + 1) * width`) joins band `b`; an entry at or past it
/// opens band `b + 1` when there is one, and otherwise stops the walk. The value of an entry
/// that joins a band becomes that band's last value, the band grows by one, and no other band
/// changes; a stopping entry changes no band.
pub proof fn lemma_band_step<V>(entries: Seq<(u32, V)>, j: int, width: int, count: int, zero: V)
    requires
        0 <= j < entries.len(),
        count > 0,
        !band_run(entries.take(j), width, count, zero).1,
    ensures
        ({
            let before = band_run(entries.take(j), width, count, zero);
            let after = band_run(entries.take(j + 1), width, count, zero);
            let b = before.0;
            let key = entries[j].0;
            let value = entries[j].1;
            let joined = if key < (b + 1) * width { b } else { b + 1 };
            &&& key < (b + 1) * width ==> after.0 == b && !after.1
            &&& key >= (b + 1) * width && b + 1 < count ==> after.0 == b + 1 && !after.1
            &&& key >= (b + 1) * width && b + 1 >= count ==> after.1 && after.0 == b && after.2 == before.2
            &&& !after.1 ==> {
                &&& after.2.len() == before.2.len()
                &&& after.2[joined].len() == before.2[joined].len() + 1
                &&& after.2[joined].last() == value
                &&& after.2[joined].drop_last() == before.2[joined]
                &&& forall|i: int| 0 <= i < after.2.len() && i != joined ==> #[trigger] after.2[i] == before.2[i]
            }
        }),
{
    let here = entries.take(j + 1);
    assert(here.drop_last() =~= entries.take(j));
    assert(here.last() == entries[j]);
    lemma_band_run_shape(entries.take(j), width, count, zero);
    let before = band_run(entries.take(j), width, count, zero);
    let after = band_run(here, width, count, zero);
    let b = before.0;
    if entries[j].0 < (b + 1) * width {
        assert(after.2[b].drop_last() =~= before.2[b]);
    } else if b + 1 < count {
        assert(after.2[b + 1].drop_last() =~= before.2[b + 1]);
    }
}

/// The band of each walked entry: the band being filled once the entry is placed.
pub open spec fn band_of<V>(entries: Seq<(u32, V)>, j: int, width: int, count: int, zero: V) -> int {
    band_run(entries.take(j + 1), width, count, zero).0
}

/// With frequencies in increasing order, a value lands in band `b` only when its frequency is
/// at least `b * width`, and the band moves on by at most one from one entry to the next.
pub proof fn lemma_band_lower_bound<V>(entries: Seq<(u32, V)>, j: int, width: int, count: int, zero: V)
    requires
        0 <= j < entries.len(),
        width >= 0,
        forall|a: int, b: int| 0 <= a < b < entries.len() ==> entries[a].0 < entries[b].0,
        !band_run(entries.take(j + 1), width, count, zero).1,
    ensures
        entries[j].0 >= band_of(entries, j, width, count, zero) * width,
        j > 0 ==> band_of(entries, j - 1, width, count, zero) <= band_of(entries, j, width, count, zero)
            <= band_of(entries, j - 1, width, count, zero) + 1,
    decreases j,
{
    let here = entries.take(j + 1);
    assert(here.drop_last() =~= entries.take(j));
    assert(here.last() == entries[j]);
    if j > 0 {
        assert(entries.take(j) =~= entries.take((j - 1) + 1));
        if !band_run(entries.take(j), width, count, zero).1 {
            lemma_band_lower_bound(entries, j - 1, width, count, zero);
        }
        let b = band_of(entries, j - 1, width, count, zero);
        let run = band_run(entries.take(j), width, count, zero);
        assert(run.0 == b);
        assert(!run.1);
        if entries[j].0 >= (b + 1) * width {
            assert(band_of(entries, j, width, count, zero) == b + 1);
        } else {
            assert(band_of(entries, j, width, count, zero) == b);
            assert(entries[j - 1].0 < entries[j].0);
        }
    } else {
        assert(entries.take(0) =~= Seq::<(u32, V)>::empty());
        assert(band_run(entries.take(0), width, count, zero).0 == 0);
        let run = band_run(entries.take(1), width, count, zero);
        assert(run.0 == 0 || run.0 == 1);
        if run.0 == 1 {
            assert(entries[0].0 >= 1 * width);
        }
        assert(0 * width == 0);
    }
}

/// The window that the next analysis takes from the collected samples: the first `size`
/// samples, once there are that many.
pub open spec fn next_window<V>(points: Seq<V>, size: nat) -> Option<Seq<V>> {
    if points.len() < size {
        None
    } else {
        Some(points.take(size as int))
    }
}

/// The samples kept after an analysis: the first half window is dropped, so that
/// consecutive windows overlap by half.
pub open spec fn after_window<V>(points: Seq<V>, size: nat) -> Seq<V> {
    if points.len() < size {
        points
    } else {
        points.skip((size / 2) as int)
    }
}

/// Takes the next analysis window out of the collected samples. With fewer than `size`
/// samples nothing happens; otherwise the first `size` samples are returned and the first
/// `size / 2` of them are dropped from `points`.
pub fn take_window<V: Copy>(points: &mut Vec<V>, size: usize) -> (window: Option<Vec<V>>)
    ensures
        window matches Some(w) ==> next_window(old(points)@, size as nat) == Some(w@),
        window is None <==> next_window(old(points)@, size as nat) is None,
        final(points)@ == after_window(old(points)@, size as nat),
{
    if points.len() < size {
        return None;
    }
    let mut window: Vec<V> = Vec::new();
    let mut i: usize = 0;
    while i < size
        invariant
            i <= size <= points@.len(),
            window@ == points@.take(i as int),
        decreases size - i,
    {
        window.push(points[i]);
        i = i + 1;
        assert(window@ =~= points@.take(i as int));
    }
    let half = size / 2;
    let mut kept: Vec<V> = Vec::new();
    let mut j: usize = half;
    while j < points.len()
        invariant
            half <= j <= points@.len(),
            kept@ == points@.subrange(half as int, j as int),
        decreases points.len() - j,
    {
        kept.push(points[j]);
        j = j + 1;
        assert(kept@ =~= points@.subrange(half as int, j as int));
    }
    assert(kept@ =~= points@.skip(half as int));
    *points = kept;
    Some(window)
}

/// Consecutive windows overlap by half: the second window starts with the second half of
/// the first.
pub proof fn lemma_windows_overlap<V>(points: Seq<V>, size: nat)
    requires
        points.len() >= size + size / 2,
    ensures
        ({
            let rest = after_window(points, size);
            &&& next_window(points, size) is Some
            &&& next_window(rest, size) is Some
            &&& next_window(rest, size)->0.take(size - size / 2)
                == next_window(points, size)->0.skip((size / 2) as int)
        }),
{
    let rest = after_window(points, size);
    assert(rest.take(size - size / 2) =~= points.take(size as int).skip((size / 2) as int));
}

/// Taking a window drops exactly its first half, however many samples are pending (at least
/// `size`): the kept samples are all those after the first `size / 2`, so they begin with the
/// second half of the window just taken.
pub proof fn lemma_window_drops_half<V>(points: Seq<V>, size: nat)
    requires
        points.len() >= size,
    ensures
        ({
            let rest = after_window(points, size);
            let window = next_window(points, size)->0;
            &&& next_window(points, size) is Some
            &&& window.len() == size
            &&& forall|i: int| 0 <= i < size ==> #[trigger] window[i] == points[i]
            &&& rest.len() == points.len() - size / 2
            &&& forall|i: int| 0 <= i < rest.len() ==> #[trigger] rest[i] == points[i + size / 2]
            &&& forall|i: int| size / 2 <= i < size ==> rest[i - size / 2] == #[trigger] window[i]
        }),
{
}

/// Brings the per-band animation state in line with the number of bands: missing entries
/// are added as `fill`; surplus entries are dropped, together with the surplus bands.
pub fn fit_to_item_count<C: Copy, W>(counter: &mut Vec<C>, values: &mut Vec<W>, count: usize, fill: C)
    ensures
        final(counter)@.len() == count,
        old(counter)@.len() < count ==> final(counter)@ == old(counter)@ + Seq::new(
            (count - old(counter)@.len()) as nat,
            |i: int| fill,
        ) && final(values)@ == old(values)@,
        old(counter)@.len() >= count ==> final(counter)@ == old(counter)@.take(count as int),
        old(counter)@.len() > count ==> final(values)@ == (if old(values)@.len() > count {
            old(values)@.take(count as int)
        } else {
            old(values)@
        }),
        old(counter)@.len() == count ==> final(values)@ == old(values)@,
{
    let ghost start = counter@;
    if counter.len() < count {
        while counter.len() < count
            invariant
                start.len() <= counter@.len() <= count,
                counter@ == start + Seq::new((counter@.len() - start.len()) as nat, |i: int| fill),
            decreases count - counter.len(),
        {
            counter.push(fill);
            assert(counter@ =~= start + Seq::new((counter@.len() - start.len()) as nat, |i: int| fill));
        }
    } else if counter.len() > count {
        counter.truncate(count);
        values.truncate(count);
    }
    assert(start.len() >= count ==> counter@ =~= start.take(count as int));
}

impl Configuration {
    /// Splits a spectrum (frequency to amplitude) into `number_of_items` bands covering
    /// frequencies up to `viewed_frequencies`. Each band starts with `zero`; the walk moves on
    /// by at most one band per entry and stops at the first entry past the last band.
    pub fn map_to_representation<V: Copy>(&self, map: &BTreeMap<u32, V>, zero: V) -> (bands: Vec<Vec<V>>)
        requires
            self.number_of_items.value > 0,
        ensures
            is_sorted_walk(map_entries(map), map@),
            bands@.len() == self.number_of_items.value,
            forall|i: int| 0 <= i < bands@.len() ==> #[trigger] bands@[i]@ == representation(
                map_entries(map),
                self.viewed_frequencies.value,
                self.number_of_items.value,
                zero,
            )[i],
    {
        proof {
            lemma_u32_keys_are_ordered();
        }
        let count = self.number_of_items.value;
        let band_count = count as usize;
        let width = self.viewed_frequencies.value / count;
        let ghost entries = map_entries(map);
        let ghost w = width as int;
        let ghost n = count as int;
        let mut finished: Vec<Vec<V>> = Vec::new();
        let mut current: Vec<V> = Vec::new();
        current.push(zero);
        let mut band: usize = 0;
        let mut threshold: u32 = width;
        let mut stopped = false;
        proof {
            let v = self.viewed_frequencies.value as int;
            assert(w * n <= v) by (nonlinear_arith)
                requires w == v / n, n > 0, v >= 0;
        }
        let walk = map.iter();
        proof {
            lemma_increasing_u32(walk.remaining().map_values(|kv: (&u32, &V)| *kv.0));
            assert(into_iter(walk) == walk.remaining().unref());
            let keys = walk.remaining().map_values(|kv: (&u32, &V)| *kv.0);
            assert forall|a: int, b: int| 0 <= a < b < entries.len() implies entries[a].0 < entries[b].0 by {
                assert(keys[a] == entries[a].0);
                assert(keys[b] == entries[b].0);
            }
            let v = walk.remaining();
            assert forall|k: u32| map@.contains_key(k) implies exists|i: int|
                0 <= i < entries.len() && #[trigger] entries[i].0 == k by {
                assert(v.contains((&k, &map@[k])));
                let i = choose|i: int| 0 <= i < v.len() && v[i] == (&k, &map@[k]);
                assert(entries[i].0 == k);
            }
            assert(is_sorted_walk(entries, map@));
        }
        for kv in it: walk
            invariant
                band_count == n,
                n > 0,
                w == width,
                w * n <= u32::MAX,
                entries == map_entries(map),
                it.seq().unref() == entries,
                is_sorted_walk(entries, map@),
                band < band_count,
                threshold == (band + 1) * w,
                ({
                    let run = band_run(entries.take(it.index()), w, n, zero);
                    &&& run.0 == band
                    &&& run.1 == stopped
                    &&& run.2.len() == n
                    &&& finished@.len() == band
                    &&& forall|i: int| 0 <= i < band ==> #[trigger] finished@[i]@ == run.2[i]
                    &&& current@ == run.2[band as int]
                    &&& forall|i: int| band < i < n ==> #[trigger] run.2[i] == seq![zero]
                }),
        {
            let key = *kv.0;
            let value = *kv.1;
            proof {
                assert(kv == it.seq()[it.index()]);
                let k = it.index();
                assert(entries.take(k + 1).drop_last() =~= entries.take(k));
                assert(entries[k] == (key, value));
            }
            if !stopped {
                if key >= threshold {
                    if band < band_count - 1 {
                        proof {
                            assert((band + 2) * w <= n * w) by (nonlinear_arith)
                                requires band + 2 <= n, w >= 0;
                            assert((band + 2) * w == (band + 1) * w + w) by (nonlinear_arith);
                        }
                        finished.push(current);
                        current = Vec::new();
                        current.push(zero);
                        current.push(value);
                        band = band + 1;
                        threshold = threshold + width;
                    } else {
                        stopped = true;
                    }
                } else {
                    current.push(value);
                }
            }
        }
        assert(entries.take(entries.len() as int) =~= entries);
        finished.push(current);
        while finished.len() < band_count
            invariant
                band < finished@.len() <= band_count,
                is_sorted_walk(entries, map@),
                band_count == n,
                ({
                    let run = band_run(entries, w, n, zero);
                    &&& run.2.len() == n
                    &&& forall|i: int| 0 <= i < finished@.len() ==> #[trigger] finished@[i]@ == run.2[i]
                    &&& forall|i: int| band < i < n ==> #[trigger] run.2[i] == seq![zero]
                }),
            decreases band_count - finished.len(),
        {
            let mut empty_band: Vec<V> = Vec::new();
            empty_band.push(zero);
            finished.push(empty_band);
        }
        finished
    }
}

} // verus!
