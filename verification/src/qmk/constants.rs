//! The versioned keycode-definition overlay resolver.
//!
//! Partial definition documents, ordered oldest to newest, fold into one
//! authoritative table. Each overlay entry either inserts or replaces a
//! record, deletes an existing one (a tombstone), or marks a key as redefined
//! from scratch (a reset, carrying no content of its own). A delete whose
//! target is absent is a contract violation and fails the merge; a finished
//! table holds detailed records only, never a marker.

use crate::dec_rep;
use crate::usize_to_string;
use vstd::prelude::*;

verus! {

/// True when no two entries share a key.
pub open spec fn keys_distinct<V>(entries: Seq<(Seq<char>, V)>) -> bool {
    forall|i: int, j: int|
        0 <= i < j < entries.len() ==> (#[trigger] entries[i]).0 != (#[trigger] entries[j]).0
}

/// The table a sequence of keyed entries denotes; a later entry overrides
/// an earlier one with the same key.
pub open spec fn map_of<V>(entries: Seq<(Seq<char>, V)>) -> Map<Seq<char>, V>
    decreases entries.len(),
{
    if entries.len() == 0 {
        Map::empty()
    } else {
        map_of(entries.drop_last()).insert(entries.last().0, entries.last().1)
    }
}

/// A key is in the table exactly when some entry carries it.
pub proof fn lemma_map_of_contains<V>(entries: Seq<(Seq<char>, V)>, k: Seq<char>)
    ensures
        map_of(entries).contains_key(k) <==> exists|i: int|
            0 <= i < entries.len() && (#[trigger] entries[i]).0 == k,
    decreases entries.len(),
{
    if entries.len() > 0 {
        lemma_map_of_contains(entries.drop_last(), k);
        if entries.last().0 == k {
            assert(entries[entries.len() - 1].0 == k);
        } else if map_of(entries).contains_key(k) {
            let i = choose|i: int|
                0 <= i < entries.drop_last().len() && (#[trigger] entries.drop_last()[i]).0 == k;
            assert(entries.drop_last()[i] == entries[i]);
            assert(entries[i].0 == k);
        } else {
            assert forall|i: int| 0 <= i < entries.len() implies (#[trigger] entries[i]).0
                != k by {
                if i < entries.len() - 1 {
                    assert(entries.drop_last()[i] == entries[i]);
                }
            }
        }
    }
}

/// Dropping the last entry keeps the keys distinct.
proof fn lemma_distinct_drop_last<V>(entries: Seq<(Seq<char>, V)>)
    requires
        keys_distinct(entries),
        entries.len() > 0,
    ensures
        keys_distinct(entries.drop_last()),
{
    assert forall|x: int, y: int|
        0 <= x < y < entries.drop_last().len() implies (#[trigger] entries.drop_last()[x]).0 != (
    #[trigger] entries.drop_last()[y]).0 by {
        assert(entries.drop_last()[x] == entries[x]);
        assert(entries.drop_last()[y] == entries[y]);
    }
}

/// With distinct keys, removing the entry at an index removes exactly the
/// entry's key from the table.
pub proof fn lemma_map_of_remove<V>(entries: Seq<(Seq<char>, V)>, i: int)
    requires
        keys_distinct(entries),
        0 <= i < entries.len(),
    ensures
        map_of(entries.remove(i)) =~= map_of(entries).remove(entries[i].0),
        keys_distinct(entries.remove(i)),
    decreases entries.len(),
{
    entries.remove_ensures(i);
    assert forall|x: int, y: int|
        0 <= x < y < entries.remove(i).len() implies (#[trigger] entries.remove(i)[x]).0 != (
    #[trigger] entries.remove(i)[y]).0 by {
        let xo: int = if x < i {
            x
        } else {
            x + 1
        };
        let yo: int = if y < i {
            y
        } else {
            y + 1
        };
        assert(entries.remove(i)[x] == entries[xo]);
        assert(entries.remove(i)[y] == entries[yo]);
    }
    if i == entries.len() - 1 {
        assert(entries.remove(i) =~= entries.drop_last());
        lemma_distinct_drop_last(entries);
        lemma_map_of_contains(entries.drop_last(), entries[i].0);
        assert forall|j: int|
            0 <= j < entries.drop_last().len() implies (#[trigger] entries.drop_last()[j]).0
            != entries[i].0 by {
            assert(entries.drop_last()[j] == entries[j]);
        }
        assert(map_of(entries.remove(i)) =~= map_of(entries).remove(entries[i].0));
    } else {
        lemma_distinct_drop_last(entries);
        lemma_map_of_remove(entries.drop_last(), i);
        assert(entries.drop_last()[i] == entries[i]);
        assert(entries.remove(i).drop_last() =~= entries.drop_last().remove(i));
        assert(entries.remove(i).last() == entries.last());
        assert(map_of(entries.remove(i)) =~= map_of(entries).remove(entries[i].0));
    }
}

/// Appending an entry with a fresh key keeps the keys distinct.
pub proof fn lemma_push_distinct<V>(entries: Seq<(Seq<char>, V)>, k: Seq<char>, v: V)
    requires
        keys_distinct(entries),
        forall|j: int| 0 <= j < entries.len() ==> (#[trigger] entries[j]).0 != k,
    ensures
        keys_distinct(entries.push((k, v))),
{
    let pushed = entries.push((k, v));
    assert forall|x: int, y: int|
        0 <= x < y < pushed.len() implies (#[trigger] pushed[x]).0 != (#[trigger] pushed[y]).0 by {
        assert(pushed[x] == entries[x]);
        if y < entries.len() {
            assert(pushed[y] == entries[y]);
        } else {
            assert(pushed[y] == (k, v));
        }
    }
}

/// One keycode definition record: a group tag, the canonical key name, an
/// optional display label, and alias names.
pub struct Keycode {
    pub group: String,
    pub key: String,
    pub label: Option<String>,
    pub aliases: Vec<String>,
}

/// The mathematical model of a keycode definition record.
pub ghost struct KeycodeView {
    pub group: Seq<char>,
    pub key: Seq<char>,
    pub label: Option<Seq<char>>,
    pub aliases: Seq<Seq<char>>,
}

impl View for Keycode {
    type V = KeycodeView;

    open spec fn view(&self) -> KeycodeView {
        KeycodeView {
            group: self.group@,
            key: self.key@,
            label: self.label.deep_view(),
            aliases: self.aliases.deep_view(),
        }
    }
}

impl DeepView for Keycode {
    type V = KeycodeView;

    open spec fn deep_view(&self) -> KeycodeView {
        self.view()
    }
}

/// One keycode-table value: a reset marker, a tombstone, or a record.
pub enum KeycodeEnum {
    Reset,
    Delete,
    Detailed(Keycode),
}

/// The mathematical model of a keycode-table value.
pub ghost enum KeycodeEnumView {
    Reset,
    Delete,
    Detailed(KeycodeView),
}

impl View for KeycodeEnum {
    type V = KeycodeEnumView;

    open spec fn view(&self) -> KeycodeEnumView {
        match self {
            KeycodeEnum::Reset => KeycodeEnumView::Reset,
            KeycodeEnum::Delete => KeycodeEnumView::Delete,
            KeycodeEnum::Detailed(k) => KeycodeEnumView::Detailed(k@),
        }
    }
}

impl DeepView for KeycodeEnum {
    type V = KeycodeEnumView;

    open spec fn deep_view(&self) -> KeycodeEnumView {
        self.view()
    }
}

/// One address-range record: an optional symbolic boundary name.
pub struct Range {
    pub define: Option<String>,
}

/// The mathematical model of a range record.
pub ghost struct RangeView {
    pub define: Option<Seq<char>>,
}

impl View for Range {
    type V = RangeView;

    open spec fn view(&self) -> RangeView {
        RangeView { define: self.define.deep_view() }
    }
}

impl DeepView for Range {
    type V = RangeView;

    open spec fn deep_view(&self) -> RangeView {
        self.view()
    }
}

/// One range-table value: a tombstone or a record.
pub enum RangeEnum {
    Delete,
    Detailed(Range),
}

/// The mathematical model of a range-table value.
pub ghost enum RangeEnumView {
    Delete,
    Detailed(RangeView),
}

impl View for RangeEnum {
    type V = RangeEnumView;

    open spec fn view(&self) -> RangeEnumView {
        match self {
            RangeEnum::Delete => RangeEnumView::Delete,
            RangeEnum::Detailed(r) => RangeEnumView::Detailed(r@),
        }
    }
}

impl DeepView for RangeEnum {
    type V = RangeEnumView;

    open spec fn deep_view(&self) -> RangeEnumView {
        self.view()
    }
}

/// A keycode table: entries keyed by hex code or symbolic macro name.
pub struct Keycodes {
    pub keycodes: Vec<(String, KeycodeEnum)>,
}

impl View for Keycodes {
    type V = Seq<(Seq<char>, KeycodeEnumView)>;

    open spec fn view(&self) -> Seq<(Seq<char>, KeycodeEnumView)> {
        self.keycodes.deep_view()
    }
}

/// A range table: entries keyed like keycode entries.
pub struct Ranges {
    pub ranges: Vec<(String, RangeEnum)>,
}

impl View for Ranges {
    type V = Seq<(Seq<char>, RangeEnumView)>;

    open spec fn view(&self) -> Seq<(Seq<char>, RangeEnumView)> {
        self.ranges.deep_view()
    }
}

/// Why a merge was refused: a tombstone whose target is absent, or an
/// overlay of the other table shape.
pub enum MergeError {
    DeleteMissing(String),
    KindMismatch,
}

impl Keycodes {
    /// Keys are distinct: the entry list denotes a table.
    pub open spec fn wf(&self) -> bool {
        keys_distinct(self@)
    }

    /// A table at rest: distinct keys and no marker values.
    pub open spec fn resolved(&self) -> bool {
        self.wf() && forall|i: int| 0 <= i < self@.len() ==> (#[trigger] self@[i]).1 is Detailed
    }
}

impl Ranges {
    /// Keys are distinct: the entry list denotes a table.
    pub open spec fn wf(&self) -> bool {
        keys_distinct(self@)
    }

    /// A table at rest: distinct keys and no marker values.
    pub open spec fn resolved(&self) -> bool {
        self.wf() && forall|i: int| 0 <= i < self@.len() ==> (#[trigger] self@[i]).1 is Detailed
    }
}

impl Range {
    /// Folds an incoming record onto this one: the new record replaces the
    /// old wholly; no field-level merge is defined.
    pub fn merge(&mut self, new: Range)
        ensures
            final(self)@ == new@,
    {
        *self = new;
    }
}

impl Keycode {
    /// Folds an incoming record onto this one: the new record replaces the
    /// old wholly; no field-level merge is defined.
    pub fn merge(&mut self, new: Keycode)
        ensures
            final(self)@ == new@,
    {
        *self = new;
    }
}

impl RangeEnum {
    /// Folds an incoming record onto this table value, which must be a
    /// detailed record: a tombstone never rests in a table.
    pub fn merge(&mut self, new: Range)
        requires
            (*old(self)) is Detailed,
        ensures
            final(self)@ == RangeEnumView::Detailed(new@),
    {
        match self {
            RangeEnum::Detailed(s) => s.merge(new),
            RangeEnum::Delete => {
                proof {
                    assert(false);
                }
            },
        }
    }
}

impl KeycodeEnum {
    /// Folds an incoming record onto this table value, which must be a
    /// detailed record: markers never rest in a table.
    pub fn merge(&mut self, new: Keycode)
        requires
            (*old(self)) is Detailed,
        ensures
            final(self)@ == KeycodeEnumView::Detailed(new@),
    {
        match self {
            KeycodeEnum::Detailed(s) => s.merge(new),
            _ => {
                proof {
                    assert(false);
                }
            },
        }
    }
}

/// The table an overlay of keycode instructions folds a base table into:
/// a tombstone removes its key, a reset changes nothing, and a detailed
/// record inserts or replaces the record at its key.
pub open spec fn merged_keycodes(
    base: Map<Seq<char>, KeycodeEnumView>,
    overlay: Seq<(Seq<char>, KeycodeEnumView)>,
) -> Map<Seq<char>, KeycodeEnumView>
    decreases overlay.len(),
{
    if overlay.len() == 0 {
        base
    } else {
        let m = merged_keycodes(base, overlay.drop_last());
        match overlay.last().1 {
            KeycodeEnumView::Delete => m.remove(overlay.last().0),
            KeycodeEnumView::Reset => m,
            KeycodeEnumView::Detailed(d) => m.insert(
                overlay.last().0,
                KeycodeEnumView::Detailed(d),
            ),
        }
    }
}

/// Every tombstone in the overlay targets a key the base table holds.
pub open spec fn keycode_deletes_ok(
    base: Map<Seq<char>, KeycodeEnumView>,
    overlay: Seq<(Seq<char>, KeycodeEnumView)>,
) -> bool {
    forall|i: int|
        0 <= i < overlay.len() && (#[trigger] overlay[i]).1 is Delete ==> base.contains_key(
            overlay[i].0,
        )
}

/// A key no overlay entry carries is untouched by the fold.
proof fn lemma_merged_keycodes_untouched(
    base: Map<Seq<char>, KeycodeEnumView>,
    overlay: Seq<(Seq<char>, KeycodeEnumView)>,
    k: Seq<char>,
)
    requires
        forall|j: int| 0 <= j < overlay.len() ==> (#[trigger] overlay[j]).0 != k,
    ensures
        merged_keycodes(base, overlay).contains_key(k) == base.contains_key(k),
        base.contains_key(k) ==> merged_keycodes(base, overlay)[k] == base[k],
    decreases overlay.len(),
{
    if overlay.len() > 0 {
        assert forall|j: int|
            0 <= j < overlay.drop_last().len() implies (#[trigger] overlay.drop_last()[j]).0
            != k by {
            assert(overlay.drop_last()[j] == overlay[j]);
        }
        lemma_merged_keycodes_untouched(base, overlay.drop_last(), k);
        assert(overlay.last().0 != k);
    }
}

/// The table an overlay of range instructions folds a base table into:
/// a tombstone removes its key and a detailed record inserts or replaces
/// the record at its key.
pub open spec fn merged_ranges(
    base: Map<Seq<char>, RangeEnumView>,
    overlay: Seq<(Seq<char>, RangeEnumView)>,
) -> Map<Seq<char>, RangeEnumView>
    decreases overlay.len(),
{
    if overlay.len() == 0 {
        base
    } else {
        let m = merged_ranges(base, overlay.drop_last());
        match overlay.last().1 {
            RangeEnumView::Delete => m.remove(overlay.last().0),
            RangeEnumView::Detailed(d) => m.insert(overlay.last().0, RangeEnumView::Detailed(d)),
        }
    }
}

/// Every tombstone in the overlay targets a key the base table holds.
pub open spec fn range_deletes_ok(
    base: Map<Seq<char>, RangeEnumView>,
    overlay: Seq<(Seq<char>, RangeEnumView)>,
) -> bool {
    forall|i: int|
        0 <= i < overlay.len() && (#[trigger] overlay[i]).1 is Delete ==> base.contains_key(
            overlay[i].0,
        )
}

/// A key no overlay entry carries is untouched by the fold.
proof fn lemma_merged_ranges_untouched(
    base: Map<Seq<char>, RangeEnumView>,
    overlay: Seq<(Seq<char>, RangeEnumView)>,
    k: Seq<char>,
)
    requires
        forall|j: int| 0 <= j < overlay.len() ==> (#[trigger] overlay[j]).0 != k,
    ensures
        merged_ranges(base, overlay).contains_key(k) == base.contains_key(k),
        base.contains_key(k) ==> merged_ranges(base, overlay)[k] == base[k],
    decreases overlay.len(),
{
    if overlay.len() > 0 {
        assert forall|j: int|
            0 <= j < overlay.drop_last().len() implies (#[trigger] overlay.drop_last()[j]).0
            != k by {
            assert(overlay.drop_last()[j] == overlay[j]);
        }
        lemma_merged_ranges_untouched(base, overlay.drop_last(), k);
        assert(overlay.last().0 != k);
    }
}

/// The index of the first entry carrying this key, if any does.
fn find_key<T>(entries: &Vec<(String, T)>, key: &str) -> (r: Option<usize>)
    ensures
        match r {
            Some(i) => i < entries@.len() && (entries@[i as int]).0@ == key@ && forall|j: int|
                0 <= j < i ==> (#[trigger] entries@[j]).0@ != key@,
            None => forall|j: int| 0 <= j < entries@.len() ==> (#[trigger] entries@[j]).0@ != key@,
        },
{
    let mut i: usize = 0;
    while i < entries.len()
        invariant
            i <= entries.len(),
            forall|j: int| 0 <= j < i ==> (#[trigger] entries@[j]).0@ != key@,
        decreases entries.len() - i,
    {
        if crate::str_eq(entries[i].0.as_str(), key) {
            return Some(i);
        }
        i += 1;
    }
    None
}

impl Keycodes {
    /// Folds an overlay document into this table: tombstones remove their
    /// (required) targets, resets are no-ops, detailed records insert or
    /// replace. A tombstone whose target is absent fails the whole merge
    /// and leaves the table untouched.
    pub fn merge(&mut self, new: Keycodes) -> (r: Result<(), MergeError>)
        requires
            old(self).resolved(),
            keys_distinct(new@),
        ensures
            match r {
                Ok(()) => {
                    &&& keycode_deletes_ok(map_of(old(self)@), new@)
                    &&& final(self).resolved()
                    &&& map_of(final(self)@) == merged_keycodes(map_of(old(self)@), new@)
                },
                Err(e) => {
                    &&& *final(self) == *old(self)
                    &&& !keycode_deletes_ok(map_of(old(self)@), new@)
                    &&& e matches MergeError::DeleteMissing(k) && !map_of(
                        old(self)@,
                    ).contains_key(k@) && exists|i: int|
                        0 <= i < new@.len() && (#[trigger] new@[i]).1 is Delete && new@[i].0 == k@
                },
            },
    {
        let ghost base = map_of(self@);
        let ghost overlay = new@;
        let mut i: usize = 0;
        while i < new.keycodes.len()
            invariant
                i <= new.keycodes.len(),
                overlay == new@,
                new@.len() == new.keycodes.len(),
                *self == *old(self),
                base == map_of(self@),
                self.resolved(),
                forall|j: int|
                    0 <= j < i && (#[trigger] overlay[j]).1 is Delete ==> base.contains_key(
                        overlay[j].0,
                    ),
            decreases new.keycodes.len() - i,
        {
            assert(overlay[i as int] == new.keycodes@[i as int].deep_view());
            let is_del = match &new.keycodes[i].1 {
                KeycodeEnum::Delete => true,
                _ => false,
            };
            if is_del {
                match find_key(&self.keycodes, new.keycodes[i].0.as_str()) {
                    Some(idx) => {
                        proof {
                            assert(self@[idx as int] == self.keycodes@[idx as int].deep_view());
                            lemma_map_of_contains(self@, overlay[i as int].0);
                        }
                    },
                    None => {
                        proof {
                            assert forall|j: int| 0 <= j < self@.len() implies (
                            #[trigger] self@[j]).0 != overlay[i as int].0 by {
                                assert(self@[j] == self.keycodes@[j].deep_view());
                            }
                            lemma_map_of_contains(self@, overlay[i as int].0);
                        }
                        return Err(MergeError::DeleteMissing(new.keycodes[i].0.clone()));
                    },
                }
            }
            i += 1;
        }
        assert(keycode_deletes_ok(base, overlay));
        let mut rem = new;
        assert(rem@ =~= overlay.skip(0));
        assert(overlay.take(0) =~= Seq::<(Seq<char>, KeycodeEnumView)>::empty());
        while rem.keycodes.len() > 0
            invariant
                keys_distinct(overlay),
                keycode_deletes_ok(base, overlay),
                self.resolved(),
                rem@.len() == rem.keycodes.len(),
                rem@.len() <= overlay.len(),
                rem@ == overlay.skip(overlay.len() - rem@.len()),
                map_of(self@) == merged_keycodes(base, overlay.take(overlay.len() - rem@.len())),
            decreases rem.keycodes.len(),
        {
            let ghost done = overlay.len() - rem@.len();
            let ghost pre_entries = rem.keycodes@;
            let ghost pre_deep = rem@;
            proof {
                assert(rem@[0] == rem.keycodes@[0].deep_view());
                assert(overlay.skip(done)[0] == overlay[done]);
            }
            let (key, value) = rem.keycodes.remove(0);
            proof {
                assert((key@, value@) == overlay[done]);
                pre_entries.remove_ensures(0);
                assert forall|j: int| 0 <= j < rem@.len() implies #[trigger] rem@[j]
                    == overlay.skip(done + 1)[j] by {
                    assert(rem.keycodes@[j] == pre_entries[j + 1]);
                    assert(rem@[j] == rem.keycodes@[j].deep_view());
                    assert(pre_deep[j + 1] == pre_entries[j + 1].deep_view());
                    assert(overlay.skip(done)[j + 1] == overlay[done + 1 + j]);
                    assert(overlay.skip(done + 1)[j] == overlay[done + 1 + j]);
                }
                assert(rem@ =~= overlay.skip(done + 1));
                assert(overlay.take(done + 1).drop_last() =~= overlay.take(done));
                assert(overlay.take(done + 1).last() == overlay[done]);
                assert forall|j: int|
                    0 <= j < overlay.take(done).len() implies (#[trigger] overlay.take(done)[j]).0
                    != key@ by {
                    assert(overlay.take(done)[j] == overlay[j]);
                }
            }
            let ghost m = map_of(self@);
            match value {
                KeycodeEnum::Delete => {
                    proof {
                        lemma_merged_keycodes_untouched(base, overlay.take(done), key@);
                        assert(m.contains_key(key@));
                        lemma_map_of_contains(self@, key@);
                    }
                    match find_key(&self.keycodes, key.as_str()) {
                        Some(idx) => {
                            proof {
                                assert(self@[idx as int] == self.keycodes@[
                                    idx as int
                                ].deep_view());
                                lemma_map_of_remove(self@, idx as int);
                            }
                            let ghost pre = self@;
                            let _removed = self.keycodes.remove(idx);
                            proof {
                                assert(self@ =~= pre.remove(idx as int));
                                pre.remove_ensures(idx as int);
                                assert forall|j: int| 0 <= j < self@.len() implies (
                                #[trigger] self@[j]).1 is Detailed by {
                                    if j < idx as int {
                                        assert(self@[j] == pre[j]);
                                    } else {
                                        assert(self@[j] == pre[j + 1]);
                                    }
                                }
                                assert(map_of(self@) =~= merged_keycodes(
                                    base,
                                    overlay.take(done + 1),
                                ));
                            }
                        },
                        None => {
                            proof {
                                assert forall|j: int| 0 <= j < self@.len() implies (
                                #[trigger] self@[j]).0 != key@ by {
                                    assert(self@[j] == self.keycodes@[j].deep_view());
                                }
                                assert(false);
                            }
                            return Err(MergeError::KindMismatch);
                        },
                    }
                },
                KeycodeEnum::Reset => {
                    assert(map_of(self@) == merged_keycodes(base, overlay.take(done + 1)));
                },
                KeycodeEnum::Detailed(d) => {
                    let ghost dv = d@;
                    match find_key(&self.keycodes, key.as_str()) {
                        Some(idx) => {
                            proof {
                                assert(self@[idx as int] == self.keycodes@[
                                    idx as int
                                ].deep_view());
                                lemma_map_of_remove(self@, idx as int);
                                lemma_map_of_contains(self@, key@);
                            }
                            let ghost pre = self@;
                            let (k0, mut oe) = self.keycodes.remove(idx);
                            proof {
                                assert((k0@, oe@) == pre[idx as int]);
                                assert(oe@ is Detailed);
                                assert(self@ =~= pre.remove(idx as int));
                                pre.remove_ensures(idx as int);
                                lemma_map_of_contains(self@, key@);
                                assert forall|j: int| 0 <= j < self@.len() implies (
                                #[trigger] self@[j]).0 != key@ && (#[trigger] self@[j]).1
                                    is Detailed by {
                                    if j < idx as int {
                                        assert(self@[j] == pre[j]);
                                    } else {
                                        assert(self@[j] == pre[j + 1]);
                                    }
                                }
                            }
                            oe.merge(d);
                            let ghost mid = self@;
                            self.keycodes.push((k0, oe));
                            proof {
                                assert(self@ =~= mid.push((key@, KeycodeEnumView::Detailed(dv))));
                                lemma_push_distinct(mid, key@, KeycodeEnumView::Detailed(dv));
                                assert(self@.last() == (key@, KeycodeEnumView::Detailed(dv)));
                                assert(self@.drop_last() =~= mid);
                                assert forall|j: int| 0 <= j < self@.len() implies (
                                #[trigger] self@[j]).1 is Detailed by {
                                    if j < self@.len() - 1 {
                                        assert(self@[j] == mid[j]);
                                    }
                                }
                                assert(map_of(self@) =~= merged_keycodes(
                                    base,
                                    overlay.take(done + 1),
                                ));
                            }
                        },
                        None => {
                            let ghost pre = self@;
                            proof {
                                assert forall|j: int| 0 <= j < pre.len() implies (
                                #[trigger] pre[j]).0 != key@ by {
                                    assert(pre[j] == self.keycodes@[j].deep_view());
                                }
                            }
                            self.keycodes.push((key, KeycodeEnum::Detailed(d)));
                            proof {
                                assert(self@ =~= pre.push((key@, KeycodeEnumView::Detailed(dv))));
                                lemma_push_distinct(pre, key@, KeycodeEnumView::Detailed(dv));
                                assert(self@.drop_last() =~= pre);
                                assert forall|j: int| 0 <= j < self@.len() implies (
                                #[trigger] self@[j]).1 is Detailed by {
                                    if j < self@.len() - 1 {
                                        assert(self@[j] == pre[j]);
                                    }
                                }
                                assert(map_of(self@) =~= merged_keycodes(
                                    base,
                                    overlay.take(done + 1),
                                ));
                            }
                        },
                    }
                },
            }
        }
        assert(overlay.take(overlay.len() - rem@.len()) =~= overlay);
        Ok(())
    }
}

impl Ranges {
    /// Folds an overlay document into this table: tombstones remove their
    /// (required) targets, detailed records insert or replace. A tombstone
    /// whose target is absent fails the whole merge and leaves the table
    /// untouched.
    pub fn merge(&mut self, new: Ranges) -> (r: Result<(), MergeError>)
        requires
            old(self).resolved(),
            keys_distinct(new@),
        ensures
            match r {
                Ok(()) => {
                    &&& range_deletes_ok(map_of(old(self)@), new@)
                    &&& final(self).resolved()
                    &&& map_of(final(self)@) == merged_ranges(map_of(old(self)@), new@)
                },
                Err(e) => {
                    &&& *final(self) == *old(self)
                    &&& !range_deletes_ok(map_of(old(self)@), new@)
                    &&& e matches MergeError::DeleteMissing(k) && !map_of(
                        old(self)@,
                    ).contains_key(k@) && exists|i: int|
                        0 <= i < new@.len() && (#[trigger] new@[i]).1 is Delete && new@[i].0 == k@
                },
            },
    {
        let ghost base = map_of(self@);
        let ghost overlay = new@;
        let mut i: usize = 0;
        while i < new.ranges.len()
            invariant
                i <= new.ranges.len(),
                overlay == new@,
                new@.len() == new.ranges.len(),
                *self == *old(self),
                base == map_of(self@),
                self.resolved(),
                forall|j: int|
                    0 <= j < i && (#[trigger] overlay[j]).1 is Delete ==> base.contains_key(
                        overlay[j].0,
                    ),
            decreases new.ranges.len() - i,
        {
            assert(overlay[i as int] == new.ranges@[i as int].deep_view());
            let is_del = match &new.ranges[i].1 {
                RangeEnum::Delete => true,
                _ => false,
            };
            if is_del {
                match find_key(&self.ranges, new.ranges[i].0.as_str()) {
                    Some(idx) => {
                        proof {
                            assert(self@[idx as int] == self.ranges@[idx as int].deep_view());
                            lemma_map_of_contains(self@, overlay[i as int].0);
                        }
                    },
                    None => {
                        proof {
                            assert forall|j: int| 0 <= j < self@.len() implies (
                            #[trigger] self@[j]).0 != overlay[i as int].0 by {
                                assert(self@[j] == self.ranges@[j].deep_view());
                            }
                            lemma_map_of_contains(self@, overlay[i as int].0);
                        }
                        return Err(MergeError::DeleteMissing(new.ranges[i].0.clone()));
                    },
                }
            }
            i += 1;
        }
        assert(range_deletes_ok(base, overlay));
        let mut rem = new;
        assert(rem@ =~= overlay.skip(0));
        assert(overlay.take(0) =~= Seq::<(Seq<char>, RangeEnumView)>::empty());
        while rem.ranges.len() > 0
            invariant
                keys_distinct(overlay),
                range_deletes_ok(base, overlay),
                self.resolved(),
                rem@.len() == rem.ranges.len(),
                rem@.len() <= overlay.len(),
                rem@ == overlay.skip(overlay.len() - rem@.len()),
                map_of(self@) == merged_ranges(base, overlay.take(overlay.len() - rem@.len())),
            decreases rem.ranges.len(),
        {
            let ghost done = overlay.len() - rem@.len();
            let ghost pre_entries = rem.ranges@;
            let ghost pre_deep = rem@;
            proof {
                assert(rem@[0] == rem.ranges@[0].deep_view());
                assert(overlay.skip(done)[0] == overlay[done]);
            }
            let (key, value) = rem.ranges.remove(0);
            proof {
                assert((key@, value@) == overlay[done]);
                pre_entries.remove_ensures(0);
                assert forall|j: int| 0 <= j < rem@.len() implies #[trigger] rem@[j]
                    == overlay.skip(done + 1)[j] by {
                    assert(rem.ranges@[j] == pre_entries[j + 1]);
                    assert(rem@[j] == rem.ranges@[j].deep_view());
                    assert(pre_deep[j + 1] == pre_entries[j + 1].deep_view());
                    assert(overlay.skip(done)[j + 1] == overlay[done + 1 + j]);
                    assert(overlay.skip(done + 1)[j] == overlay[done + 1 + j]);
                }
                assert(rem@ =~= overlay.skip(done + 1));
                assert(overlay.take(done + 1).drop_last() =~= overlay.take(done));
                assert(overlay.take(done + 1).last() == overlay[done]);
                assert forall|j: int|
                    0 <= j < overlay.take(done).len() implies (#[trigger] overlay.take(done)[j]).0
                    != key@ by {
                    assert(overlay.take(done)[j] == overlay[j]);
                }
            }
            let ghost m = map_of(self@);
            match value {
                RangeEnum::Delete => {
                    proof {
                        lemma_merged_ranges_untouched(base, overlay.take(done), key@);
                        assert(m.contains_key(key@));
                        lemma_map_of_contains(self@, key@);
                    }
                    match find_key(&self.ranges, key.as_str()) {
                        Some(idx) => {
                            proof {
                                assert(self@[idx as int] == self.ranges@[idx as int].deep_view());
                                lemma_map_of_remove(self@, idx as int);
                            }
                            let ghost pre = self@;
                            let _removed = self.ranges.remove(idx);
                            proof {
                                assert(self@ =~= pre.remove(idx as int));
                                pre.remove_ensures(idx as int);
                                assert forall|j: int| 0 <= j < self@.len() implies (
                                #[trigger] self@[j]).1 is Detailed by {
                                    if j < idx as int {
                                        assert(self@[j] == pre[j]);
                                    } else {
                                        assert(self@[j] == pre[j + 1]);
                                    }
                                }
                                assert(map_of(self@) =~= merged_ranges(
                                    base,
                                    overlay.take(done + 1),
                                ));
                            }
                        },
                        None => {
                            proof {
                                assert forall|j: int| 0 <= j < self@.len() implies (
                                #[trigger] self@[j]).0 != key@ by {
                                    assert(self@[j] == self.ranges@[j].deep_view());
                                }
                                assert(false);
                            }
                            return Err(MergeError::KindMismatch);
                        },
                    }
                },
                RangeEnum::Detailed(d) => {
                    let ghost dv = d@;
                    match find_key(&self.ranges, key.as_str()) {
                        Some(idx) => {
                            proof {
                                assert(self@[idx as int] == self.ranges@[idx as int].deep_view());
                                lemma_map_of_remove(self@, idx as int);
                                lemma_map_of_contains(self@, key@);
                            }
                            let ghost pre = self@;
                            let (k0, mut oe) = self.ranges.remove(idx);
                            proof {
                                assert((k0@, oe@) == pre[idx as int]);
                                assert(oe@ is Detailed);
                                assert(self@ =~= pre.remove(idx as int));
                                pre.remove_ensures(idx as int);
                                lemma_map_of_contains(self@, key@);
                                assert forall|j: int| 0 <= j < self@.len() implies (
                                #[trigger] self@[j]).0 != key@ && (#[trigger] self@[j]).1
                                    is Detailed by {
                                    if j < idx as int {
                                        assert(self@[j] == pre[j]);
                                    } else {
                                        assert(self@[j] == pre[j + 1]);
                                    }
                                }
                            }
                            oe.merge(d);
                            let ghost mid = self@;
                            self.ranges.push((k0, oe));
                            proof {
                                assert(self@ =~= mid.push((key@, RangeEnumView::Detailed(dv))));
                                lemma_push_distinct(mid, key@, RangeEnumView::Detailed(dv));
                                assert(self@.last() == (key@, RangeEnumView::Detailed(dv)));
                                assert(self@.drop_last() =~= mid);
                                assert forall|j: int| 0 <= j < self@.len() implies (
                                #[trigger] self@[j]).1 is Detailed by {
                                    if j < self@.len() - 1 {
                                        assert(self@[j] == mid[j]);
                                    }
                                }
                                assert(map_of(self@) =~= merged_ranges(
                                    base,
                                    overlay.take(done + 1),
                                ));
                            }
                        },
                        None => {
                            let ghost pre = self@;
                            proof {
                                assert forall|j: int| 0 <= j < pre.len() implies (
                                #[trigger] pre[j]).0 != key@ by {
                                    assert(pre[j] == self.ranges@[j].deep_view());
                                }
                            }
                            self.ranges.push((key, RangeEnum::Detailed(d)));
                            proof {
                                assert(self@ =~= pre.push((key@, RangeEnumView::Detailed(dv))));
                                lemma_push_distinct(pre, key@, RangeEnumView::Detailed(dv));
                                assert(self@.drop_last() =~= pre);
                                assert forall|j: int| 0 <= j < self@.len() implies (
                                #[trigger] self@[j]).1 is Detailed by {
                                    if j < self@.len() - 1 {
                                        assert(self@[j] == pre[j]);
                                    }
                                }
                                assert(map_of(self@) =~= merged_ranges(
                                    base,
                                    overlay.take(done + 1),
                                ));
                            }
                        },
                    }
                },
            }
        }
        assert(overlay.take(overlay.len() - rem@.len()) =~= overlay);
        Ok(())
    }
}

/// One definition document: either a keycode table or a range table,
/// distinguished structurally.
pub enum KeycodesEnum {
    Keycodes(Keycodes),
    Ranges(Ranges),
}

/// The mathematical model of a definition document.
pub ghost enum KeycodesEnumView {
    Keycodes(Seq<(Seq<char>, KeycodeEnumView)>),
    Ranges(Seq<(Seq<char>, RangeEnumView)>),
}

impl View for KeycodesEnum {
    type V = KeycodesEnumView;

    open spec fn view(&self) -> KeycodesEnumView {
        match self {
            KeycodesEnum::Keycodes(k) => KeycodesEnumView::Keycodes(k@),
            KeycodesEnum::Ranges(r) => KeycodesEnumView::Ranges(r@),
        }
    }
}

impl DeepView for KeycodesEnum {
    type V = KeycodesEnumView;

    open spec fn deep_view(&self) -> KeycodesEnumView {
        self.view()
    }
}

/// Keys are distinct in the document's table.
pub open spec fn kev_wf(v: KeycodesEnumView) -> bool {
    match v {
        KeycodesEnumView::Keycodes(s) => keys_distinct(s),
        KeycodesEnumView::Ranges(s) => keys_distinct(s),
    }
}

/// A document at rest: distinct keys and no marker values.
pub open spec fn kev_resolved(v: KeycodesEnumView) -> bool {
    match v {
        KeycodesEnumView::Keycodes(s) => keys_distinct(s) && forall|i: int|
            0 <= i < s.len() ==> (#[trigger] s[i]).1 is Detailed,
        KeycodesEnumView::Ranges(s) => keys_distinct(s) && forall|i: int|
            0 <= i < s.len() ==> (#[trigger] s[i]).1 is Detailed,
    }
}

/// The two documents have the same table shape.
pub open spec fn same_kind(a: KeycodesEnumView, b: KeycodesEnumView) -> bool {
    (a is Keycodes) == (b is Keycodes)
}

impl KeycodesEnum {
    /// Folds an overlay document into this one. The two shapes never mix:
    /// an overlay of the other shape fails the merge and changes nothing.
    pub fn merge(&mut self, new: KeycodesEnum) -> (r: Result<(), MergeError>)
        requires
            kev_resolved(old(self)@),
            kev_wf(new@),
        ensures
            match r {
                Ok(()) => {
                    &&& same_kind(old(self)@, new@)
                    &&& kev_resolved(final(self)@)
                    &&& match (old(self)@, new@, final(self)@) {
                        (
                            KeycodesEnumView::Keycodes(b),
                            KeycodesEnumView::Keycodes(o),
                            KeycodesEnumView::Keycodes(f),
                        ) => keycode_deletes_ok(map_of(b), o) && map_of(f) == merged_keycodes(
                            map_of(b),
                            o,
                        ),
                        (
                            KeycodesEnumView::Ranges(b),
                            KeycodesEnumView::Ranges(o),
                            KeycodesEnumView::Ranges(f),
                        ) => range_deletes_ok(map_of(b), o) && map_of(f) == merged_ranges(
                            map_of(b),
                            o,
                        ),
                        _ => false,
                    }
                },
                Err(e) => {
                    &&& *final(self) == *old(self)
                    &&& (!same_kind(old(self)@, new@) <==> e is KindMismatch)
                    &&& match (old(self)@, new@) {
                        (KeycodesEnumView::Keycodes(b), KeycodesEnumView::Keycodes(o)) => {
                            &&& !keycode_deletes_ok(map_of(b), o)
                            &&& e matches MergeError::DeleteMissing(k) && !map_of(b).contains_key(
                                k@,
                            ) && exists|i: int|
                                0 <= i < o.len() && (#[trigger] o[i]).1 is Delete && o[i].0 == k@
                        },
                        (KeycodesEnumView::Ranges(b), KeycodesEnumView::Ranges(o)) => {
                            &&& !range_deletes_ok(map_of(b), o)
                            &&& e matches MergeError::DeleteMissing(k) && !map_of(b).contains_key(
                                k@,
                            ) && exists|i: int|
                                0 <= i < o.len() && (#[trigger] o[i]).1 is Delete && o[i].0 == k@
                        },
                        _ => e is KindMismatch,
                    }
                },
            },
    {
        match self {
            KeycodesEnum::Keycodes(k) => match new {
                KeycodesEnum::Keycodes(new_k) => k.merge(new_k),
                KeycodesEnum::Ranges(_) => Err(MergeError::KindMismatch),
            },
            KeycodesEnum::Ranges(r) => match new {
                KeycodesEnum::Ranges(new_r) => r.merge(new_r),
                KeycodesEnum::Keycodes(_) => Err(MergeError::KindMismatch),
            },
        }
    }

    /// The summary statistics line for this document: its table shape and
    /// its entry count.
    pub fn summary(&self) -> (r: String)
        ensures
            r@ == match self@ {
                KeycodesEnumView::Keycodes(s) => "keycodes, "@ + dec_rep(s.len()) + " items"@,
                KeycodesEnumView::Ranges(s) => "range, "@ + dec_rep(s.len()) + " items"@,
            },
    {
        match self {
            KeycodesEnum::Keycodes(k) => {
                let mut y = String::from_str("keycodes, ");
                let n = usize_to_string(k.keycodes.len());
                y.append(n.as_str());
                y.append(" items");
                assert(y@ =~= "keycodes, "@ + dec_rep(k.keycodes@.len()) + " items"@);
                y
            },
            KeycodesEnum::Ranges(rs) => {
                let mut y = String::from_str("range, ");
                let n = usize_to_string(rs.ranges.len());
                y.append(n.as_str());
                y.append(" items");
                assert(y@ =~= "range, "@ + dec_rep(rs.ranges@.len()) + " items"@);
                y
            },
        }
    }
}

/// Why a category fold stopped: a tombstone without a target, or a document
/// of the other table shape.
pub ghost enum FoldError {
    DeleteMissing,
    KindMismatch,
}

/// The fold of keycode documents onto an accumulated table, oldest first.
pub open spec fn spec_fold_keycodes(
    acc: Map<Seq<char>, KeycodeEnumView>,
    docs: Seq<KeycodesEnumView>,
) -> Result<Map<Seq<char>, KeycodeEnumView>, FoldError>
    decreases docs.len(),
{
    if docs.len() == 0 {
        Ok(acc)
    } else {
        match docs[0] {
            KeycodesEnumView::Keycodes(o) => if keycode_deletes_ok(acc, o) {
                spec_fold_keycodes(merged_keycodes(acc, o), docs.drop_first())
            } else {
                Err(FoldError::DeleteMissing)
            },
            KeycodesEnumView::Ranges(_) => Err(FoldError::KindMismatch),
        }
    }
}

/// The fold of range documents onto an accumulated table, oldest first.
pub open spec fn spec_fold_ranges(
    acc: Map<Seq<char>, RangeEnumView>,
    docs: Seq<KeycodesEnumView>,
) -> Result<Map<Seq<char>, RangeEnumView>, FoldError>
    decreases docs.len(),
{
    if docs.len() == 0 {
        Ok(acc)
    } else {
        match docs[0] {
            KeycodesEnumView::Ranges(o) => if range_deletes_ok(acc, o) {
                spec_fold_ranges(merged_ranges(acc, o), docs.drop_first())
            } else {
                Err(FoldError::DeleteMissing)
            },
            KeycodesEnumView::Keycodes(_) => Err(FoldError::KindMismatch),
        }
    }
}

/// What a category fold returns: on success a resolved table whose contents
/// are the fold of all documents onto an empty table of the first document's
/// shape; on failure the fold's own failure, with the error kinds agreeing.
pub open spec fn category_merge_post(
    docs: Seq<KeycodesEnumView>,
    r: Result<KeycodesEnum, MergeError>,
) -> bool {
    match r {
        Ok(t) => kev_resolved(t@) && match (docs[0], t@) {
            (KeycodesEnumView::Keycodes(_), KeycodesEnumView::Keycodes(f)) => spec_fold_keycodes(
                Map::empty(),
                docs,
            ) == Ok::<Map<Seq<char>, KeycodeEnumView>, FoldError>(map_of(f)),
            (KeycodesEnumView::Ranges(_), KeycodesEnumView::Ranges(f)) => spec_fold_ranges(
                Map::empty(),
                docs,
            ) == Ok::<Map<Seq<char>, RangeEnumView>, FoldError>(map_of(f)),
            _ => false,
        },
        Err(e) => match docs[0] {
            KeycodesEnumView::Keycodes(_) => spec_fold_keycodes(Map::empty(), docs) is Err && (
            e is KindMismatch <==> spec_fold_keycodes(Map::empty(), docs) == Err::<
                Map<Seq<char>, KeycodeEnumView>,
                FoldError,
            >(FoldError::KindMismatch)),
            KeycodesEnumView::Ranges(_) => spec_fold_ranges(Map::empty(), docs) is Err && (
            e is KindMismatch <==> spec_fold_ranges(Map::empty(), docs) == Err::<
                Map<Seq<char>, RangeEnumView>,
                FoldError,
            >(FoldError::KindMismatch)),
        },
    }
}

/// A version-ordered, non-empty run of well-formed documents.
pub open spec fn category_docs_wf(docs: Seq<KeycodesEnumView>) -> bool {
    docs.len() > 0 && forall|j: int| 0 <= j < docs.len() ==> kev_wf(#[trigger] docs[j])
}

/// One category's overlay chain folded into its authoritative table,
/// oldest document first, starting from an empty table of the first
/// document's shape. A merge violation aborts the fold.
pub fn merge_category(docs: Vec<KeycodesEnum>) -> (r: Result<KeycodesEnum, MergeError>)
    requires
        category_docs_wf(docs.deep_view()),
    ensures
        category_merge_post(docs.deep_view(), r),
{
    let ghost dv = docs.deep_view();
    let mut rem = docs;
    proof {
        assert(dv[0] == rem@[0].deep_view());
        assert(rem.deep_view() =~= dv.skip(0));
    }
    let mut acc: KeycodesEnum = match &rem[0] {
        KeycodesEnum::Keycodes(_) => KeycodesEnum::Keycodes(Keycodes { keycodes: Vec::new() }),
        KeycodesEnum::Ranges(_) => KeycodesEnum::Ranges(Ranges { ranges: Vec::new() }),
    };
    proof {
        match acc@ {
            KeycodesEnumView::Keycodes(s) => {
                assert(s =~= Seq::<(Seq<char>, KeycodeEnumView)>::empty());
                assert(map_of(s) =~= Map::<Seq<char>, KeycodeEnumView>::empty());
            },
            KeycodesEnumView::Ranges(s) => {
                assert(s =~= Seq::<(Seq<char>, RangeEnumView)>::empty());
                assert(map_of(s) =~= Map::<Seq<char>, RangeEnumView>::empty());
            },
        }
    }
    #[verifier::loop_isolation(false)]
    while rem.len() > 0
        invariant
            rem@.len() == rem.len(),
            rem.len() <= dv.len(),
            dv.len() > 0,
            rem.deep_view() == dv.skip(dv.len() - rem.len()),
            same_kind(acc@, dv[0]),
            kev_resolved(acc@),
            forall|j: int| 0 <= j < dv.len() ==> kev_wf(#[trigger] dv[j]),
            match (dv[0], acc@) {
                (KeycodesEnumView::Keycodes(_), KeycodesEnumView::Keycodes(f)) => spec_fold_keycodes(
                    Map::empty(),
                    dv,
                ) == spec_fold_keycodes(map_of(f), dv.skip(dv.len() - rem.len())),
                (KeycodesEnumView::Ranges(_), KeycodesEnumView::Ranges(f)) => spec_fold_ranges(
                    Map::empty(),
                    dv,
                ) == spec_fold_ranges(map_of(f), dv.skip(dv.len() - rem.len())),
                _ => false,
            },
        decreases rem.len(),
    {
        let ghost done = dv.len() - rem@.len();
        let ghost pre_entries = rem@;
        let ghost pre_deep = rem.deep_view();
        let doc = rem.remove(0);
        proof {
            assert(pre_deep[0] == pre_entries[0].deep_view());
            assert(pre_deep[0] == dv[done]);
            assert(doc.deep_view() == dv[done]);
            pre_entries.remove_ensures(0);
            assert forall|j: int| 0 <= j < rem@.len() implies #[trigger] rem.deep_view()[j]
                == dv.skip(done + 1)[j] by {
                assert(rem@[j] == pre_entries[j + 1]);
                assert(rem.deep_view()[j] == rem@[j].deep_view());
                assert(pre_deep[j + 1] == pre_entries[j + 1].deep_view());
                assert(dv.skip(done)[j + 1] == dv[done + 1 + j]);
                assert(dv.skip(done + 1)[j] == dv[done + 1 + j]);
            }
            assert(rem.deep_view() =~= dv.skip(done + 1));
            assert(dv.skip(done)[0] == dv[done]);
            assert(dv.skip(done).drop_first() =~= dv.skip(done + 1));
        }
        let ghost acc_pre = acc@;
        match acc.merge(doc) {
            Ok(()) => {},
            Err(e) => {
                proof {
                    match (dv[0], acc_pre) {
                        (KeycodesEnumView::Keycodes(_), KeycodesEnumView::Keycodes(f)) => {
                            match dv[done] {
                                KeycodesEnumView::Keycodes(o) => {
                                    assert(!keycode_deletes_ok(map_of(f), o));
                                    assert(spec_fold_keycodes(map_of(f), dv.skip(done)) == Err::<
                                        Map<Seq<char>, KeycodeEnumView>,
                                        FoldError,
                                    >(FoldError::DeleteMissing));
                                    assert(!(e is KindMismatch));
                                },
                                KeycodesEnumView::Ranges(_) => {
                                    assert(spec_fold_keycodes(map_of(f), dv.skip(done)) == Err::<
                                        Map<Seq<char>, KeycodeEnumView>,
                                        FoldError,
                                    >(FoldError::KindMismatch));
                                    assert(e is KindMismatch);
                                },
                            }
                        },
                        (KeycodesEnumView::Ranges(_), KeycodesEnumView::Ranges(f)) => {
                            match dv[done] {
                                KeycodesEnumView::Ranges(o) => {
                                    assert(!range_deletes_ok(map_of(f), o));
                                    assert(spec_fold_ranges(map_of(f), dv.skip(done)) == Err::<
                                        Map<Seq<char>, RangeEnumView>,
                                        FoldError,
                                    >(FoldError::DeleteMissing));
                                    assert(!(e is KindMismatch));
                                },
                                KeycodesEnumView::Keycodes(_) => {
                                    assert(spec_fold_ranges(map_of(f), dv.skip(done)) == Err::<
                                        Map<Seq<char>, RangeEnumView>,
                                        FoldError,
                                    >(FoldError::KindMismatch));
                                    assert(e is KindMismatch);
                                },
                            }
                        },
                        _ => {
                            assert(false);
                        },
                    }
                }
                return Err(e);
            },
        }
    }
    proof {
        assert(dv.skip(dv.len() as int) =~= Seq::<KeycodesEnumView>::empty());
    }
    Ok(acc)
}

/// Each category's overlay chain folded independently into its own
/// authoritative table; a merge violation aborts that category's fold alone.
pub fn parse_categories(categories: Vec<(String, Vec<KeycodesEnum>)>) -> (r: Vec<
    (String, Result<KeycodesEnum, MergeError>),
>)
    requires
        forall|i: int|
            0 <= i < categories@.len() ==> category_docs_wf(
                (#[trigger] categories@[i]).1.deep_view(),
            ),
    ensures
        r@.len() == categories@.len(),
        forall|i: int|
            0 <= i < r@.len() ==> (#[trigger] r@[i]).0@ == categories@[i].0@
                && category_merge_post(categories@[i].1.deep_view(), r@[i].1),
{
    let ghost cv = categories@;
    let mut rem = categories;
    let mut out: Vec<(String, Result<KeycodesEnum, MergeError>)> = Vec::new();
    #[verifier::loop_isolation(false)]
    while rem.len() > 0
        invariant
            out.len() + rem.len() == cv.len(),
            rem@ == cv.skip(out.len() as int),
            forall|i: int|
                0 <= i < out@.len() ==> (#[trigger] out@[i]).0@ == cv[i].0@ && category_merge_post(
                    cv[i].1.deep_view(),
                    out@[i].1,
                ),
        decreases rem.len(),
    {
        let ghost done = out@.len() as int;
        proof {
            assert(rem@[0] == cv[done]);
        }
        let (name, docs) = rem.remove(0);
        proof {
            assert(rem@ =~= cv.skip(done + 1));
        }
        let res = merge_category(docs);
        out.push((name, res));
    }
    out
}

/// The index of the first entry of a table view carrying this key, if any.
pub open spec fn spec_view_find<W>(h: Seq<(Seq<char>, W)>, key: Seq<char>) -> Option<int>
    decreases h.len(),
{
    if h.len() == 0 {
        None
    } else if h[0].0 == key {
        Some(0)
    } else {
        match spec_view_find(h.drop_first(), key) {
            Some(i) => Some(i + 1),
            None => None,
        }
    }
}

/// A table with a value appended under a key: onto the first entry carrying
/// the key, or as a fresh entry at the end.
pub open spec fn spec_table_append<V>(
    h: Seq<(Seq<char>, Seq<V>)>,
    key: Seq<char>,
    val: V,
) -> Seq<(Seq<char>, Seq<V>)> {
    match spec_view_find(h, key) {
        Some(i) => h.update(i, (h[i].0, h[i].1.push(val))),
        None => h.push((key, seq![val])),
    }
}

/// A first-match scan pins down `spec_view_find`.
pub proof fn lemma_view_find<W>(h: Seq<(Seq<char>, W)>, key: Seq<char>, i: int)
    requires
        0 <= i <= h.len(),
        forall|j: int| 0 <= j < i ==> (#[trigger] h[j]).0 != key,
        i < h.len() ==> h[i].0 == key,
    ensures
        spec_view_find(h, key) == if i < h.len() {
            Some(i)
        } else {
            None::<int>
        },
    decreases i + 1,
{
    if h.len() == 0 {
    } else if i == 0 {
    } else {
        assert(h[0].0 != key);
        assert forall|j: int| 0 <= j < i - 1 implies (#[trigger] h.drop_first()[j]).0 != key by {
            assert(h.drop_first()[j] == h[j + 1]);
        }
        if i - 1 < h.drop_first().len() {
            assert(h.drop_first()[i - 1] == h[i]);
        }
        lemma_view_find(h.drop_first(), key, i - 1);
    }
}

/// Appends a value to the list the key names, creating the entry when the
/// key is new. The first entry carrying the key receives the value.
pub fn append_val<T: DeepView>(h: &mut Vec<(String, Vec<T>)>, key: &str, val: T)
    ensures
        final(h).deep_view() == spec_table_append(old(h).deep_view(), key@, val.deep_view()),
{
    let ghost hv = h.deep_view();
    let ghost vv = val.deep_view();
    proof {
        assert forall|j: int| 0 <= j < hv.len() implies #[trigger] hv[j] == (
            h@[j].0@,
            h@[j].1.deep_view(),
        ) by {
            assert(hv[j] == h@[j].deep_view());
        }
    }
    match find_key(h, key) {
        Some(i) => {
            proof {
                lemma_view_find(hv, key@, i as int);
            }
            let (k0, mut v0) = h.remove(i);
            let ghost v0d = v0.deep_view();
            v0.push(val);
            proof {
                assert(v0.deep_view() =~= v0d.push(vv));
            }
            let ghost mid = h@;
            h.insert(i, (k0, v0));
            proof {
                assert(h@ == mid.insert(i as int, (k0, v0)));
                assert forall|j: int|
                    0 <= j < h.deep_view().len() implies #[trigger] h.deep_view()[j]
                    == spec_table_append(hv, key@, vv)[j] by {
                    assert(h.deep_view()[j] == h@[j].deep_view());
                    if j < i as int {
                        assert(h@[j] == mid.insert(i as int, (k0, v0))[j]);
                        assert(mid[j] == old(h)@[j]);
                    } else if j == i as int {
                        assert(h@[j] == (k0, v0));
                    } else {
                        assert(h@[j] == mid[j - 1]);
                        assert(mid[j - 1] == old(h)@[j]);
                    }
                }
                assert(h.deep_view() =~= spec_table_append(hv, key@, vv));
            }
        },
        None => {
            proof {
                assert forall|j: int| 0 <= j < hv.len() implies (#[trigger] hv[j]).0 != key@ by {
                    assert(hv[j] == h@[j].deep_view());
                }
                lemma_view_find(hv, key@, hv.len() as int);
            }
            let mut fresh: Vec<T> = Vec::new();
            fresh.push(val);
            proof {
                assert(fresh.deep_view() =~= seq![vv]);
            }
            let ghost mid = h@;
            h.push((key.to_owned(), fresh));
            proof {
                assert forall|j: int|
                    0 <= j < h.deep_view().len() implies #[trigger] h.deep_view()[j]
                    == spec_table_append(hv, key@, vv)[j] by {
                    assert(h.deep_view()[j] == h@[j].deep_view());
                    if j < mid.len() {
                        assert(h@[j] == mid[j]);
                    }
                }
                assert(h.deep_view() =~= spec_table_append(hv, key@, vv));
            }
        },
    }
}

/// The file name of a version's default definition document.
pub open spec fn spec_default_name(version: Seq<char>) -> Seq<char> {
    "keycodes_"@ + version + ".hjson"@
}

/// A candidate file name of a version: the version's prefix, a category
/// (possibly empty), and the definition-file suffix.
pub open spec fn candidate_ok(name: Seq<char>, version: Seq<char>) -> bool {
    &&& name.len() >= "keycodes_"@.len() + version.len() + 1 + ".hjson"@.len()
    &&& name.take(("keycodes_"@.len() + version.len() + 1) as int) == "keycodes_"@ + version + "_"@
    &&& name.skip(name.len() - ".hjson"@.len()) == ".hjson"@
}

/// The category a candidate file name carries: what stands between the
/// version prefix and the suffix.
pub open spec fn spec_category_of(name: Seq<char>, version: Seq<char>) -> Seq<char> {
    name.subrange(
        ("keycodes_"@.len() + version.len() + 1) as int,
        name.len() - ".hjson"@.len(),
    )
}

/// One version's candidate files folded into the category table, in the
/// order they were found.
pub open spec fn spec_fold_files(
    h: Seq<(Seq<char>, Seq<Seq<char>>)>,
    version: Seq<char>,
    files: Seq<Seq<char>>,
) -> Seq<(Seq<char>, Seq<Seq<char>>)>
    decreases files.len(),
{
    if files.len() == 0 {
        h
    } else {
        spec_fold_files(
            spec_table_append(h, spec_category_of(files[0], version), files[0]),
            version,
            files.drop_first(),
        )
    }
}

/// One version added to the category table: its default document under the
/// default category, then each candidate file under its own category.
pub open spec fn spec_add_version(
    h: Seq<(Seq<char>, Seq<Seq<char>>)>,
    version: Seq<char>,
    files: Seq<Seq<char>>,
) -> Seq<(Seq<char>, Seq<Seq<char>>)> {
    spec_fold_files(spec_table_append(h, "-"@, spec_default_name(version)), version, files)
}

/// All versions added to the category table, oldest first.
pub open spec fn spec_gen_file_list(
    h: Seq<(Seq<char>, Seq<Seq<char>>)>,
    versions: Seq<Seq<char>>,
    found: Seq<Seq<Seq<char>>>,
) -> Seq<(Seq<char>, Seq<Seq<char>>)>
    decreases versions.len(),
{
    if versions.len() == 0 {
        h
    } else {
        spec_gen_file_list(
            spec_add_version(h, versions[0], found[0]),
            versions.drop_first(),
            found.drop_first(),
        )
    }
}

/// The candidate definition files grouped by category: a default category
/// holding each version's default document name, and one category per
/// distinct file-name suffix, version order kept within each category.
/// `found` holds, for each version, the candidate file names discovered
/// for it, in the order they were found.
pub fn gen_file_list(versions: &Vec<String>, found: &Vec<Vec<String>>) -> (r: Vec<
    (String, Vec<String>),
>)
    requires
        found@.len() == versions@.len(),
        forall|v: int, j: int|
            0 <= v < found.deep_view().len() && 0 <= j < found.deep_view()[v].len()
                ==> candidate_ok(#[trigger] found.deep_view()[v][j], versions.deep_view()[v]),
    ensures
        r.deep_view() == spec_gen_file_list(
            Seq::empty(),
            versions.deep_view(),
            found.deep_view(),
        ),
{
    let ghost vd = versions.deep_view();
    let ghost fd = found.deep_view();
    let mut files: Vec<(String, Vec<String>)> = Vec::new();
    proof {
        assert(files.deep_view() =~= Seq::<(Seq<char>, Seq<Seq<char>>)>::empty());
        assert(vd.skip(0) =~= vd);
        assert(fd.skip(0) =~= fd);
    }
    let mut v: usize = 0;
    #[verifier::loop_isolation(false)]
    while v < versions.len()
        invariant
            v <= versions.len(),
            spec_gen_file_list(files.deep_view(), vd.skip(v as int), fd.skip(v as int))
                == spec_gen_file_list(Seq::empty(), vd, fd),
        decreases versions.len() - v,
    {
        proof {
            assert(vd.skip(v as int)[0] == vd[v as int]);
            assert(fd.skip(v as int)[0] == fd[v as int]);
            assert(vd.skip(v as int).drop_first() =~= vd.skip(v as int + 1));
            assert(fd.skip(v as int).drop_first() =~= fd.skip(v as int + 1));
        }
        let version: &String = &versions[v];
        proof {
            assert(version@ == vd[v as int]);
        }
        let mut path = String::from_str("keycodes_");
        path.append(version.as_str());
        path.append(".hjson");
        assert(path@ =~= spec_default_name(vd[v as int]));
        append_val(&mut files, "-", path);
        let cand: &Vec<String> = &found[v];
        proof {
            assert(cand.deep_view() == fd[v as int]);
            assert(fd[v as int].skip(0) =~= fd[v as int]);
        }
        let mut j: usize = 0;
        #[verifier::loop_isolation(false)]
        while j < cand.len()
            invariant
                j <= cand.len(),
                spec_gen_file_list(
                    spec_fold_files(files.deep_view(), vd[v as int], fd[v as int].skip(j as int)),
                    vd.skip(v as int + 1),
                    fd.skip(v as int + 1),
                ) == spec_gen_file_list(Seq::empty(), vd, fd),
            decreases cand.len() - j,
        {
            proof {
                reveal_strlit("keycodes_");
                reveal_strlit(".hjson");
                assert(fd[v as int].skip(j as int)[0] == fd[v as int][j as int]);
                assert(fd[v as int].skip(j as int).drop_first() =~= fd[v as int].skip(
                    j as int + 1,
                ));
            }
            let name: &String = &cand[j];
            proof {
                assert(name@ == fd[v as int][j as int]);
                assert(candidate_ok(name@, vd[v as int]));
            }
            let name_len = name.as_str().unicode_len();
            let start = 10 + version.as_str().unicode_len();
            let category = name.as_str().substring_char(start, name_len - 6).to_owned();
            proof {
                assert(category@ == spec_category_of(name@, vd[v as int]));
            }
            append_val(&mut files, category.as_str(), name.clone());
            j += 1;
        }
        proof {
            assert(fd[v as int].skip(cand.len() as int) =~= Seq::<Seq<char>>::empty());
        }
        v += 1;
    }
    proof {
        assert(vd.skip(versions.len() as int) =~= Seq::<Seq<char>>::empty());
    }
    files
}

/// The path of one version's definition document of one keycode type,
/// below the firmware source tree.
pub fn qmk_keycodes_path(base_path: &str, keycode_type: &str, version: &str) -> (r: String)
    ensures
        r@ == base_path@ + "/data/constants/keycodes/keycodes_"@ + version@ + "_"@ + keycode_type@
            + ".hjson"@,
{
    let mut p = base_path.to_owned();
    p.append("/data/constants/keycodes/keycodes_");
    p.append(version);
    p.append("_");
    p.append(keycode_type);
    p.append(".hjson");
    assert(p@ =~= base_path@ + "/data/constants/keycodes/keycodes_"@ + version@ + "_"@
        + keycode_type@ + ".hjson"@);
    p
}

} // verus!
