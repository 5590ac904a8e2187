//! What an import does to the store, by value.
//!
//! Each record updates the item already imported under its key, or adds one,
//! and then writes or clears that item's weekly rule. Items and rules are read
//! here as the store holds them: items in the order they were made, rules one
//! per item.
use vstd::prelude::*;
use crate::import::{ImportRecord, ImportRepeat, import_category};
use crate::rules::RawRuleV;
use crate::store::{ItemV, comma_join, stamp_or_epoch, tag_list};
use crate::text::{opt_str, split_on};
use crate::zone::Stamp;

verus! {

pub open spec fn record_tags(r: ImportRecord) -> Seq<Seq<char>> {
    r.tags@.map_values(|t: String| t@)
}

/// A stored due instant as read back.
pub open spec fn due_of(d: Option<String>) -> Option<Stamp> {
    match d {
        Some(s) => Some(stamp_or_epoch(s@)),
        None => None,
    }
}

/// An item after a record is written over it: everything the record carries
/// is replaced; its id, key, origin, creation and completions stay.
pub open spec fn overwritten(it: ItemV, r: ImportRecord) -> ItemV {
    ItemV {
        title: r.title@,
        tags: tag_list(split_on(comma_join(record_tags(r)), ',')),
        category: import_category(record_tags(r)),
        location: opt_str(r.location),
        listed: r.repeat is None,
        due_at: due_of(r.due_at),
        estimate_min: r.estimate_min,
        recurs: r.repeat is Some,
        ..it
    }
}

/// Where an imported item says it came from.
pub open spec fn import_source() -> Seq<char> {
    seq!['i', 'm', 'p', 'o', 'r', 't']
}

/// The item a record adds when nothing is held under its key.
pub open spec fn fresh_item(r: ImportRecord, id: Seq<char>, now: Stamp) -> ItemV {
    overwritten(
        ItemV {
            id,
            title: r.title@,
            tags: Seq::empty(),
            category: None,
            location: None,
            listed: true,
            due_at: None,
            estimate_min: None,
            recurs: false,
            done_on: Seq::empty(),
            completed: false,
            completed_at: None,
            created_at: Stamp { secs: now.secs, nanos: now.nanos, offset: 0 },
            source: import_source(),
            external_id: Some(r.external_id@),
        },
        r,
    )
}

/// The first item from `k` on imported under `ext`, or -1.
pub open spec fn held_from(items: Seq<ItemV>, ext: Seq<char>, k: int) -> int
    decreases items.len() - k,
{
    if k < 0 || k >= items.len() {
        -1
    } else if items[k].external_id == Some(ext) {
        k
    } else {
        held_from(items, ext, k + 1)
    }
}

/// The item imported under `ext`, or -1.
pub open spec fn held(items: Seq<ItemV>, ext: Seq<char>) -> int {
    held_from(items, ext, 0)
}

/// The first rule from `k` on that belongs to item `id`, or -1.
pub open spec fn rule_from(rules: Seq<RawRuleV>, id: Seq<char>, k: int) -> int
    decreases rules.len() - k,
{
    if k < 0 || k >= rules.len() {
        -1
    } else if rules[k].item_id == id {
        k
    } else {
        rule_from(rules, id, k + 1)
    }
}

/// The rule of item `id`, or -1.
pub open spec fn rule_at(rules: Seq<RawRuleV>, id: Seq<char>) -> int {
    rule_from(rules, id, 0)
}

/// A repeat's weekdays as stored: joined by commas.
pub open spec fn days_text(rep: ImportRepeat) -> Seq<char> {
    comma_join(rep.byday@.map_values(|t: String| t@))
}

/// A rule rewritten to a repeat: its days, hours and zone are replaced; its
/// item, start date, end date and cancelled dates stay.
pub open spec fn rewritten(x: RawRuleV, rep: ImportRepeat) -> RawRuleV {
    RawRuleV {
        byday: days_text(rep),
        start_time: rep.start_time@,
        end_time: rep.end_time@,
        tz: opt_str(rep.tz),
        ..x
    }
}

pub open spec fn epoch_date() -> Seq<char> {
    seq!['1', '9', '7', '0', '-', '0', '1', '-', '0', '1']
}

/// What a new rule holds before a repeat is written to it: it runs from the
/// start of the calendar, without an end and without cancelled dates.
pub open spec fn blank_rule(id: Seq<char>) -> RawRuleV {
    RawRuleV {
        item_id: id,
        byday: Seq::empty(),
        monthday: None,
        start_time: Seq::empty(),
        end_time: Seq::empty(),
        tz: None,
        from_date: epoch_date(),
        until_date: None,
        except_on: Seq::empty(),
    }
}

/// An item's rule after a record for it: cleared when the record does not
/// repeat, else rewritten, or made afresh when there was none.
pub open spec fn rule_after(v: Option<RawRuleV>, id: Seq<char>, r: ImportRecord) -> Option<RawRuleV> {
    match r.repeat {
        None => None,
        Some(rep) => Some(
            rewritten(
                match v {
                    Some(x) => x,
                    None => blank_rule(id),
                },
                rep,
            ),
        ),
    }
}

/// The stored rules after a record for item `id`.
pub open spec fn rule_written(rules: Seq<RawRuleV>, id: Seq<char>, r: ImportRecord) -> Seq<RawRuleV> {
    let k = rule_at(rules, id);
    match r.repeat {
        None => if k < 0 {
            rules
        } else {
            rules.remove(k)
        },
        Some(rep) => if k < 0 {
            rules.push(rewritten(blank_rule(id), rep))
        } else {
            rules.update(k, rewritten(rules[k], rep))
        },
    }
}

/// The store part way through a batch, with what was added and updated so far.
#[verifier::ext_equal]
pub struct ImportState {
    pub items: Seq<ItemV>,
    pub rules: Seq<RawRuleV>,
    pub added: nat,
    pub updated: nat,
}

/// One record applied: the item held under its key is overwritten, or a new
/// item is added with the next fresh id; then its rule is written.
pub open spec fn import_step(st: ImportState, r: ImportRecord, ids: Seq<Seq<char>>, now: Stamp) -> ImportState {
    let k = held(st.items, r.external_id@);
    if k >= 0 {
        ImportState {
            items: st.items.update(k, overwritten(st.items[k], r)),
            rules: rule_written(st.rules, st.items[k].id, r),
            added: st.added,
            updated: st.updated + 1,
        }
    } else {
        let id = ids[st.added as int];
        ImportState {
            items: st.items.push(fresh_item(r, id, now)),
            rules: rule_written(st.rules, id, r),
            added: st.added + 1,
            updated: st.updated,
        }
    }
}

/// The store after the first `n` records of a batch, the k-th new item taking
/// `ids[k]`.
pub open spec fn import_fold(
    items: Seq<ItemV>,
    rules: Seq<RawRuleV>,
    rs: Seq<ImportRecord>,
    ids: Seq<Seq<char>>,
    now: Stamp,
    n: nat,
) -> ImportState
    decreases n,
{
    if n == 0 {
        ImportState { items, rules, added: 0, updated: 0 }
    } else {
        import_step(import_fold(items, rules, rs, ids, now, (n - 1) as nat), rs[n - 1], ids, now)
    }
}

/// An earlier record of the batch, one of the first `n`, carries this key.
pub open spec fn key_before(rs: Seq<ImportRecord>, ext: Seq<char>, n: int) -> bool {
    exists|j: int| 0 <= j < n && #[trigger] rs[j].external_id@ == ext
}

/// How many of the first `n` records add an item, and so want a fresh id:
/// those whose key neither the store nor an earlier record of the batch holds.
pub open spec fn adds(items: Seq<ItemV>, rs: Seq<ImportRecord>, n: nat) -> nat
    decreases n,
{
    if n == 0 {
        0
    } else {
        let ext = rs[n - 1].external_id@;
        adds(items, rs, (n - 1) as nat) + if held(items, ext) < 0 && !key_before(rs, ext, n - 1) {
            1nat
        } else {
            0nat
        }
    }
}

/// Later records never add fewer.
pub proof fn lemma_adds_grow(items: Seq<ItemV>, rs: Seq<ImportRecord>, i: nat, n: nat)
    requires
        i <= n,
    ensures
        adds(items, rs, i) <= adds(items, rs, n),
    decreases n,
{
    if i < n {
        lemma_adds_grow(items, rs, i, (n - 1) as nat);
    }
}

/// `held_from` finds the first item from `k` on carrying the key.
pub proof fn lemma_held_from(items: Seq<ItemV>, ext: Seq<char>, k: int)
    requires
        0 <= k,
    ensures
        held_from(items, ext, k) == -1 || (k <= held_from(items, ext, k) < items.len()
            && items[held_from(items, ext, k)].external_id == Some(ext)),
        forall|j: int|
            #![trigger items[j]]
            k <= j < items.len() && (held_from(items, ext, k) == -1 || j < held_from(items, ext, k))
                ==> items[j].external_id != Some(ext),
    decreases items.len() - k,
{
    if k < items.len() && items[k].external_id != Some(ext) {
        lemma_held_from(items, ext, k + 1);
    }
}

/// The first item carrying the key is the one `held` finds.
pub proof fn lemma_held_is(items: Seq<ItemV>, ext: Seq<char>, h: int)
    requires
        h == -1 ==> forall|j: int| #![trigger items[j]] 0 <= j < items.len() ==> items[j].external_id != Some(ext),
        h != -1 ==> 0 <= h < items.len() && items[h].external_id == Some(ext) && forall|j: int|
            #![trigger items[j]]
            0 <= j < h ==> items[j].external_id != Some(ext),
    ensures
        held(items, ext) == h,
{
    lemma_held_from(items, ext, 0);
    let g = held(items, ext);
    if g == -1 {
        if h != -1 {
            assert(items[h].external_id != Some(ext));
        }
    } else if h == -1 {
        assert(items[g].external_id != Some(ext));
    } else if g < h {
        assert(items[g].external_id != Some(ext));
    } else if h < g {
        assert(items[h].external_id != Some(ext));
    }
}

/// Items with the same keys in the same places hold each key in the same place.
pub proof fn lemma_held_same_keys(a: Seq<ItemV>, b: Seq<ItemV>, ext: Seq<char>)
    requires
        a.len() == b.len(),
        forall|i: int| 0 <= i < a.len() ==> #[trigger] a[i].external_id == b[i].external_id,
    ensures
        held(a, ext) == held(b, ext),
{
    lemma_held_from(a, ext, 0);
    let h = held(a, ext);
    assert forall|j: int| #![trigger b[j]] 0 <= j < b.len() && (h == -1 || j < h) implies b[j].external_id != Some(ext) by {
        assert(a[j].external_id == b[j].external_id);
    }
    if h != -1 {
        assert(a[h].external_id == b[h].external_id);
    }
    lemma_held_is(b, ext, h);
}

/// Adding an item keeps every key already held where it was.
pub proof fn lemma_held_push(a: Seq<ItemV>, x: ItemV, ext: Seq<char>)
    ensures
        held(a, ext) >= 0 ==> held(a.push(x), ext) == held(a, ext),
        held(a, ext) == -1 && x.external_id == Some(ext) ==> held(a.push(x), ext) == a.len(),
        held(a, ext) == -1 && x.external_id != Some(ext) ==> held(a.push(x), ext) == -1,
{
    lemma_held_from(a, ext, 0);
    let b = a.push(x);
    let h = held(a, ext);
    if h >= 0 {
        assert(b[h] == a[h]);
        assert forall|j: int| #![trigger b[j]] 0 <= j < h implies b[j].external_id != Some(ext) by {
            assert(b[j] == a[j]);
        }
        lemma_held_is(b, ext, h);
    } else if x.external_id == Some(ext) {
        assert forall|j: int| #![trigger b[j]] 0 <= j < a.len() implies b[j].external_id != Some(ext) by {
            assert(b[j] == a[j]);
        }
        lemma_held_is(b, ext, a.len() as int);
    } else {
        assert forall|j: int| #![trigger b[j]] 0 <= j < b.len() implies b[j].external_id != Some(ext) by {
            if j < a.len() {
                assert(b[j] == a[j]);
            }
        }
        lemma_held_is(b, ext, -1);
    }
}

/// An import adds exactly the records `adds` counts, whatever ids it is
/// given; afterwards a key is held when the store held it or a record of the
/// batch carried it.
pub proof fn lemma_adds(
    items: Seq<ItemV>,
    rules: Seq<RawRuleV>,
    rs: Seq<ImportRecord>,
    ids: Seq<Seq<char>>,
    now: Stamp,
    n: nat,
)
    requires
        n <= rs.len(),
    ensures
        import_fold(items, rules, rs, ids, now, n).added == adds(items, rs, n),
        forall|x: Seq<char>|
            #[trigger] held(import_fold(items, rules, rs, ids, now, n).items, x) >= 0 <==> (held(items, x) >= 0
                || key_before(rs, x, n as int)),
    decreases n,
{
    if n > 0 {
        let m = (n - 1) as nat;
        lemma_adds(items, rules, rs, ids, now, m);
        let st = import_fold(items, rules, rs, ids, now, m);
        let r = rs[m as int];
        let e = r.external_id@;
        let k = held(st.items, e);
        let nx = import_fold(items, rules, rs, ids, now, n).items;
        lemma_held_from(st.items, e, 0);
        assert(held(st.items, e) >= 0 <==> (held(items, e) >= 0 || key_before(rs, e, m as int)));
        assert forall|x: Seq<char>| #[trigger] held(nx, x) >= 0 <==> (held(items, x) >= 0 || key_before(rs, x, n as int)) by {
            if k >= 0 {
                assert forall|i: int| 0 <= i < st.items.len() implies #[trigger] st.items[i].external_id == nx[i].external_id by {
                    if i == k {
                        assert(nx[i] == overwritten(st.items[k], r));
                    } else {
                        assert(nx[i] == st.items[i]);
                    }
                }
                lemma_held_same_keys(st.items, nx, x);
                if x == e {
                    assert(held(nx, x) == k);
                }
            } else {
                lemma_held_from(st.items, x, 0);
                assert(nx == st.items.push(fresh_item(r, ids[st.added as int], now)));
                lemma_held_push(st.items, fresh_item(r, ids[st.added as int], now), x);
            }
            if key_before(rs, x, n as int) {
                let j = choose|j: int| 0 <= j < n && #[trigger] rs[j].external_id@ == x;
                if j < m {
                    assert(key_before(rs, x, m as int));
                }
            }
            if x == e {
                assert(rs[m as int].external_id@ == x);
                assert(key_before(rs, x, n as int));
            }
            if key_before(rs, x, m as int) {
                let j = choose|j: int| 0 <= j < m && #[trigger] rs[j].external_id@ == x;
                assert(rs[j].external_id@ == x);
            }
        }
    }
}

/// `rule_from` finds the first rule from `k` on for the item.
pub proof fn lemma_rule_from(rules: Seq<RawRuleV>, id: Seq<char>, k: int)
    requires
        0 <= k,
    ensures
        rule_from(rules, id, k) == -1 || (k <= rule_from(rules, id, k) < rules.len()
            && rules[rule_from(rules, id, k)].item_id == id),
        forall|j: int|
            #![trigger rules[j]]
            k <= j < rules.len() && (rule_from(rules, id, k) == -1 || j < rule_from(rules, id, k))
                ==> rules[j].item_id != id,
    decreases rules.len() - k,
{
    if k < rules.len() && rules[k].item_id != id {
        lemma_rule_from(rules, id, k + 1);
    }
}

/// The first rule for the item is the one `rule_at` finds.
pub proof fn lemma_rule_is(rules: Seq<RawRuleV>, id: Seq<char>, h: int)
    requires
        h == -1 ==> forall|j: int| #![trigger rules[j]] 0 <= j < rules.len() ==> rules[j].item_id != id,
        h != -1 ==> 0 <= h < rules.len() && rules[h].item_id == id && forall|j: int|
            #![trigger rules[j]]
            0 <= j < h ==> rules[j].item_id != id,
    ensures
        rule_at(rules, id) == h,
{
    lemma_rule_from(rules, id, 0);
    let g = rule_at(rules, id);
    if g == -1 {
        if h != -1 {
            assert(rules[h].item_id != id);
        }
    } else if h == -1 {
        assert(rules[g].item_id != id);
    } else if g < h {
        assert(rules[g].item_id != id);
    } else if h < g {
        assert(rules[h].item_id != id);
    }
}

/// The rule of item `id`, if it has one.
pub open spec fn rule_of(rules: Seq<RawRuleV>, id: Seq<char>) -> Option<RawRuleV> {
    if rule_at(rules, id) >= 0 {
        Some(rules[rule_at(rules, id)])
    } else {
        None
    }
}

/// At most one rule per item, as the store keeps them.
pub open spec fn rules_unique(rules: Seq<RawRuleV>) -> bool {
    forall|i: int, j: int|
        #![trigger rules[i], rules[j]]
        0 <= i < j < rules.len() ==> rules[i].item_id != rules[j].item_id
}

/// Writing one item's rule leaves every other item's rule as it was.
pub proof fn lemma_rule_written_other(rules: Seq<RawRuleV>, id: Seq<char>, r: ImportRecord, x: Seq<char>)
    requires
        x != id,
    ensures
        rule_of(rule_written(rules, id, r), x) == rule_of(rules, x),
{
    lemma_rule_from(rules, id, 0);
    lemma_rule_from(rules, x, 0);
    let k = rule_at(rules, id);
    let kx = rule_at(rules, x);
    let out = rule_written(rules, id, r);
    if k >= 0 {
        match r.repeat {
            None => {
                if kx == -1 {
                    assert forall|j: int| #![trigger out[j]] 0 <= j < out.len() implies out[j].item_id != x by {
                        if j < k {
                            assert(out[j] == rules[j]);
                        } else {
                            assert(out[j] == rules[j + 1]);
                        }
                    }
                    lemma_rule_is(out, x, -1);
                } else if kx < k {
                    assert forall|j: int| #![trigger out[j]] 0 <= j < kx implies out[j].item_id != x by {
                        assert(out[j] == rules[j]);
                    }
                    assert(out[kx] == rules[kx]);
                    lemma_rule_is(out, x, kx);
                } else {
                    assert(kx != k);
                    assert forall|j: int| #![trigger out[j]] 0 <= j < kx - 1 implies out[j].item_id != x by {
                        if j < k {
                            assert(out[j] == rules[j]);
                        } else {
                            assert(out[j] == rules[j + 1]);
                        }
                    }
                    assert(out[kx - 1] == rules[kx]);
                    lemma_rule_is(out, x, kx - 1);
                }
            },
            Some(rep) => {
                assert forall|j: int| #![trigger out[j]] 0 <= j < out.len() && (kx == -1 || j < kx) implies out[j].item_id != x by {
                    if j != k {
                        assert(out[j] == rules[j]);
                    } else {
                        assert(out[j].item_id == id);
                    }
                }
                if kx >= 0 {
                    assert(kx != k);
                    assert(out[kx] == rules[kx]);
                }
                lemma_rule_is(out, x, kx);
            },
        }
    } else {
        match r.repeat {
            None => {},
            Some(rep) => {
                assert forall|j: int| #![trigger out[j]] 0 <= j < out.len() && (kx == -1 || j < kx) implies out[j].item_id != x by {
                    if j < rules.len() {
                        assert(out[j] == rules[j]);
                    }
                }
                if kx >= 0 {
                    assert(out[kx] == rules[kx]);
                }
                lemma_rule_is(out, x, kx);
            },
        }
    }
}

/// With one rule per item, writing an item's rule sets it as `rule_after`
/// says, and still leaves one rule per item.
pub proof fn lemma_rule_written_same(rules: Seq<RawRuleV>, id: Seq<char>, r: ImportRecord)
    requires
        rules_unique(rules),
    ensures
        rule_of(rule_written(rules, id, r), id) == rule_after(rule_of(rules, id), id, r),
        rules_unique(rule_written(rules, id, r)),
{
    lemma_rule_from(rules, id, 0);
    let k = rule_at(rules, id);
    let out = rule_written(rules, id, r);
    if k >= 0 {
        match r.repeat {
            None => {
                assert forall|j: int| #![trigger out[j]] 0 <= j < out.len() implies out[j].item_id != id by {
                    if j < k {
                        assert(out[j] == rules[j]);
                    } else {
                        assert(out[j] == rules[j + 1]);
                        assert(rules[k].item_id != rules[j + 1].item_id);
                    }
                }
                lemma_rule_is(out, id, -1);
                assert forall|i: int, j: int| #![trigger out[i], out[j]] 0 <= i < j < out.len() implies out[i].item_id != out[j].item_id by {
                    let ii = if i < k { i } else { i + 1 };
                    let jj = if j < k { j } else { j + 1 };
                    assert(out[i] == rules[ii]);
                    assert(out[j] == rules[jj]);
                    assert(rules[ii].item_id != rules[jj].item_id);
                }
            },
            Some(rep) => {
                assert forall|j: int| #![trigger out[j]] 0 <= j < k implies out[j].item_id != id by {
                    assert(out[j] == rules[j]);
                }
                lemma_rule_is(out, id, k);
                assert forall|i: int, j: int| #![trigger out[i], out[j]] 0 <= i < j < out.len() implies out[i].item_id != out[j].item_id by {
                    assert(out[i].item_id == rules[i].item_id);
                    assert(out[j].item_id == rules[j].item_id);
                    assert(rules[i].item_id != rules[j].item_id);
                }
            },
        }
    } else {
        match r.repeat {
            None => {},
            Some(rep) => {
                assert forall|j: int| #![trigger out[j]] 0 <= j < rules.len() implies out[j].item_id != id by {
                    assert(out[j] == rules[j]);
                }
                lemma_rule_is(out, id, rules.len() as int);
                assert forall|i: int, j: int| #![trigger out[i], out[j]] 0 <= i < j < out.len() implies out[i].item_id != out[j].item_id by {
                    if j < rules.len() {
                        assert(out[i] == rules[i]);
                        assert(out[j] == rules[j]);
                        assert(rules[i].item_id != rules[j].item_id);
                    } else {
                        assert(out[i] == rules[i]);
                    }
                }
            },
        }
    }
}

/// The rules after the first `n` records, record `j` written for item `ids[j]`.
pub open spec fn rule_ops(rules: Seq<RawRuleV>, rs: Seq<ImportRecord>, ids: Seq<Seq<char>>, n: nat) -> Seq<RawRuleV>
    decreases n,
{
    if n == 0 {
        rules
    } else {
        rule_written(rule_ops(rules, rs, ids, (n - 1) as nat), ids[n - 1], rs[n - 1])
    }
}

/// One item's rule after the first `n` records: only those written for it count.
pub open spec fn key_fold(
    v: Option<RawRuleV>,
    key: Seq<char>,
    rs: Seq<ImportRecord>,
    ids: Seq<Seq<char>>,
    n: nat,
) -> Option<RawRuleV>
    decreases n,
{
    if n == 0 {
        v
    } else {
        let w = key_fold(v, key, rs, ids, (n - 1) as nat);
        if ids[n - 1] == key {
            rule_after(w, key, rs[n - 1])
        } else {
            w
        }
    }
}

/// The last of the first `n` records written for `key`, or -1.
pub open spec fn last_for(key: Seq<char>, ids: Seq<Seq<char>>, n: nat) -> int
    decreases n,
{
    if n == 0 {
        -1
    } else if ids[n - 1] == key {
        n - 1
    } else {
        last_for(key, ids, (n - 1) as nat)
    }
}

/// Some record among the first `n` written for `key` did not repeat.
pub open spec fn cleared(key: Seq<char>, rs: Seq<ImportRecord>, ids: Seq<Seq<char>>, n: nat) -> bool
    decreases n,
{
    if n == 0 {
        false
    } else {
        (ids[n - 1] == key && rs[n - 1].repeat is None) || cleared(key, rs, ids, (n - 1) as nat)
    }
}

/// One item's rule after the first `n` records, said at once: as it was if
/// none was written for the item; none if the last one did not repeat; else
/// the last one's repeat, over the old rule if every record kept one, or over
/// a new one.
pub open spec fn key_closed(
    v: Option<RawRuleV>,
    key: Seq<char>,
    rs: Seq<ImportRecord>,
    ids: Seq<Seq<char>>,
    n: nat,
) -> Option<RawRuleV> {
    let l = last_for(key, ids, n);
    if l < 0 {
        v
    } else {
        match rs[l].repeat {
            None => None,
            Some(rep) => Some(
                rewritten(
                    if cleared(key, rs, ids, n) || v is None {
                        blank_rule(key)
                    } else {
                        v.unwrap()
                    },
                    rep,
                ),
            ),
        }
    }
}

proof fn lemma_last_cleared(key: Seq<char>, rs: Seq<ImportRecord>, ids: Seq<Seq<char>>, n: nat)
    ensures
        last_for(key, ids, n) < n,
        last_for(key, ids, n) < 0 ==> !cleared(key, rs, ids, n),
        last_for(key, ids, n) >= 0 ==> ids[last_for(key, ids, n)] == key,
        last_for(key, ids, n) >= 0 && rs[last_for(key, ids, n)].repeat is None ==> cleared(key, rs, ids, n),
    decreases n,
{
    if n > 0 {
        lemma_last_cleared(key, rs, ids, (n - 1) as nat);
    }
}

proof fn lemma_key_closed(v: Option<RawRuleV>, key: Seq<char>, rs: Seq<ImportRecord>, ids: Seq<Seq<char>>, n: nat)
    ensures
        key_fold(v, key, rs, ids, n) == key_closed(v, key, rs, ids, n),
    decreases n,
{
    if n > 0 {
        let m = (n - 1) as nat;
        lemma_key_closed(v, key, rs, ids, m);
        lemma_last_cleared(key, rs, ids, m);
    }
}

/// Writing the same records for an item a second time leaves its rule as the
/// first time did.
proof fn lemma_key_twice(v: Option<RawRuleV>, key: Seq<char>, rs: Seq<ImportRecord>, ids: Seq<Seq<char>>, n: nat)
    ensures
        key_fold(key_fold(v, key, rs, ids, n), key, rs, ids, n) == key_fold(v, key, rs, ids, n),
{
    let w = key_fold(v, key, rs, ids, n);
    lemma_key_closed(v, key, rs, ids, n);
    lemma_key_closed(w, key, rs, ids, n);
}

/// With one rule per item, each item's rule after the records is its own fold
/// of the records written for it, and there is still one rule per item.
proof fn lemma_rule_ops(rules: Seq<RawRuleV>, rs: Seq<ImportRecord>, ids: Seq<Seq<char>>, n: nat, key: Seq<char>)
    requires
        rules_unique(rules),
    ensures
        rules_unique(rule_ops(rules, rs, ids, n)),
        rule_of(rule_ops(rules, rs, ids, n), key) == key_fold(rule_of(rules, key), key, rs, ids, n),
    decreases n,
{
    if n > 0 {
        let m = (n - 1) as nat;
        lemma_rule_ops(rules, rs, ids, m, key);
        let prev = rule_ops(rules, rs, ids, m);
        lemma_rule_written_same(prev, ids[n - 1], rs[n - 1]);
        if ids[n - 1] != key {
            lemma_rule_written_other(prev, ids[n - 1], rs[n - 1], key);
        }
    }
}

/// Rule writes that agree on the items written for agree on the result.
proof fn lemma_rule_ops_ids(rules: Seq<RawRuleV>, rs: Seq<ImportRecord>, a: Seq<Seq<char>>, b: Seq<Seq<char>>, n: nat)
    requires
        forall|j: int| 0 <= j < n ==> #[trigger] a[j] == b[j],
    ensures
        rule_ops(rules, rs, a, n) == rule_ops(rules, rs, b, n),
    decreases n,
{
    if n > 0 {
        lemma_rule_ops_ids(rules, rs, a, b, (n - 1) as nat);
        assert(a[n - 1] == b[n - 1]);
    }
}

/// For each record, the id of the item `items` holds its key under.
pub open spec fn key_ids(items: Seq<ItemV>, rs: Seq<ImportRecord>) -> Seq<Seq<char>> {
    Seq::new(rs.len(), |j: int| items[held(items, rs[j].external_id@)].id)
}

/// The last of the first `n` records whose key `items` holds at `idx`.
pub open spec fn last_at(rs: Seq<ImportRecord>, items: Seq<ItemV>, idx: int, n: nat) -> Option<ImportRecord>
    decreases n,
{
    if n == 0 {
        None
    } else if held(items, rs[n - 1].external_id@) == idx {
        Some(rs[n - 1])
    } else {
        last_at(rs, items, idx, (n - 1) as nat)
    }
}

/// No two items share an id, as the store keeps them.
pub open spec fn item_ids_unique(items: Seq<ItemV>) -> bool {
    forall|i: int, j: int| #![trigger items[i], items[j]] 0 <= i < j < items.len() ==> items[i].id != items[j].id
}

proof fn lemma_last_at_same(rs: Seq<ImportRecord>, a: Seq<ItemV>, b: Seq<ItemV>, idx: int, n: nat)
    requires
        forall|j: int| 0 <= j < n ==> held(a, #[trigger] rs[j].external_id@) == held(b, rs[j].external_id@),
    ensures
        last_at(rs, a, idx, n) == last_at(rs, b, idx, n),
    decreases n,
{
    if n > 0 {
        lemma_last_at_same(rs, a, b, idx, (n - 1) as nat);
        assert(held(a, rs[n - 1].external_id@) == held(b, rs[n - 1].external_id@));
    }
}

proof fn lemma_overwritten_twice(x: ItemV, q: ImportRecord, r: ImportRecord)
    ensures
        overwritten(overwritten(x, q), r) == overwritten(x, r),
        overwritten(x, r).id == x.id,
        overwritten(x, r).external_id == x.external_id,
{
}

/// What a run of an import keeps: where each key is held, each item's id and
/// key, the items typed by hand, and for each item the last record written
/// over it; and that its rules are the records' rules written in turn for the
/// items holding their keys.
proof fn lemma_run(
    items: Seq<ItemV>,
    rules: Seq<RawRuleV>,
    rs: Seq<ImportRecord>,
    ids: Seq<Seq<char>>,
    now: Stamp,
    n: nat,
)
    requires
        n <= rs.len(),
    ensures
        ({
            let t = import_fold(items, rules, rs, ids, now, n);
            &&& t.items.len() == items.len() + t.added
            &&& t.added + t.updated == n
            &&& forall|i: int|
                #![trigger t.items[i]]
                0 <= i < items.len() ==> t.items[i].id == items[i].id && t.items[i].external_id
                    == items[i].external_id
            &&& forall|i: int|
                #![trigger t.items[i]]
                0 <= i < items.len() && items[i].external_id is None ==> t.items[i] == items[i]
            &&& forall|i: int|
                #![trigger t.items[i]]
                items.len() <= i < t.items.len() ==> t.items[i].id == ids[i - items.len()]
                    && t.items[i].external_id is Some
            &&& forall|j: int| 0 <= j < n ==> held(t.items, #[trigger] rs[j].external_id@) >= 0
            &&& t.rules == rule_ops(rules, rs, key_ids(t.items, rs), n)
            &&& forall|idx: int|
                #![trigger last_at(rs, t.items, idx, n)]
                0 <= idx < t.items.len() ==> (last_at(rs, t.items, idx, n) matches Some(r) ==> t.items[idx]
                    == overwritten(t.items[idx], r))
        }),
    decreases n,
{
    if n > 0 {
        let m = (n - 1) as nat;
        lemma_run(items, rules, rs, ids, now, m);
        let p = import_fold(items, rules, rs, ids, now, m);
        let t = import_fold(items, rules, rs, ids, now, n);
        let r = rs[m as int];
        let e = r.external_id@;
        let k = held(p.items, e);
        lemma_held_from(p.items, e, 0);
        if k >= 0 {
            lemma_overwritten_twice(p.items[k], r, r);
            assert forall|i: int| 0 <= i < p.items.len() implies #[trigger] p.items[i].external_id
                == t.items[i].external_id by {
                if i == k {
                    lemma_overwritten_twice(p.items[k], r, r);
                }
            }
            assert forall|e2: Seq<char>| #[trigger] held(t.items, e2) == held(p.items, e2) by {
                lemma_held_same_keys(p.items, t.items, e2);
            }
            assert forall|i: int|
                #![trigger t.items[i]]
                0 <= i < items.len() && items[i].external_id is None implies t.items[i] == items[i] by {
                assert(p.items[i] == items[i]);
                assert(i != k);
            }
        } else {
            let id = ids[p.added as int];
            let x = fresh_item(r, id, now);
            lemma_overwritten_twice(x, r, r);
            assert forall|j: int| 0 <= j < m implies held(t.items, #[trigger] rs[j].external_id@) == held(
                p.items,
                rs[j].external_id@,
            ) by {
                lemma_held_push(p.items, x, rs[j].external_id@);
            }
            lemma_held_push(p.items, x, e);
        }
        // The ids the rules were written for are still those of the items
        // holding each key.
        let kp = key_ids(p.items, rs);
        let kt = key_ids(t.items, rs);
        assert forall|j: int| 0 <= j < m implies #[trigger] kp[j] == kt[j] by {
            let ej = rs[j].external_id@;
            let h = held(p.items, ej);
            assert(h >= 0);
            lemma_held_from(p.items, ej, 0);
            assert(kp[j] == p.items[h].id);
            assert(kt[j] == t.items[held(t.items, ej)].id);
            if k < 0 {
                lemma_held_push(p.items, fresh_item(r, ids[p.added as int], now), ej);
                assert(t.items[h] == p.items[h]);
            } else {
                assert(held(t.items, ej) == h);
                if h != k {
                    assert(t.items[h] == p.items[h]);
                }
            }
        }
        lemma_rule_ops_ids(rules, rs, kp, kt, m);
        assert(kt[m as int] == t.items[held(t.items, e)].id);
        // Each item is still the last record written over it.
        assert forall|idx: int|
            #![trigger last_at(rs, t.items, idx, n)]
            0 <= idx < t.items.len() implies (last_at(rs, t.items, idx, n) matches Some(q) ==> t.items[idx]
                == overwritten(t.items[idx], q)) by {
            if held(t.items, e) != idx {
                assert forall|j: int| 0 <= j < m implies held(t.items, #[trigger] rs[j].external_id@) == held(
                    p.items,
                    rs[j].external_id@,
                ) by {
                    if k < 0 {
                        lemma_held_push(p.items, fresh_item(r, ids[p.added as int], now), rs[j].external_id@);
                    }
                }
                lemma_last_at_same(rs, t.items, p.items, idx, m);
                if let Some(q) = last_at(rs, p.items, idx, m) {
                    assert(idx < p.items.len());
                    assert(t.items[idx] == p.items[idx]);
                }
            }
        }
    }
}

/// A batch whose every key is already held adds nothing: each item keeps its
/// place, id and key, and becomes the last record written over it.
pub proof fn law_held_keys_update_in_place(
    items: Seq<ItemV>,
    rules: Seq<RawRuleV>,
    rs: Seq<ImportRecord>,
    ids: Seq<Seq<char>>,
    now: Stamp,
    n: nat,
)
    requires
        n <= rs.len(),
        forall|j: int| 0 <= j < rs.len() ==> held(items, #[trigger] rs[j].external_id@) >= 0,
    ensures
        ({
            let u = import_fold(items, rules, rs, ids, now, n);
            &&& u.added == 0
            &&& u.updated == n
            &&& u.items.len() == items.len()
            &&& forall|i: int|
                #![trigger u.items[i]]
                0 <= i < items.len() ==> u.items[i] == match last_at(rs, items, i, n) {
                    Some(r) => overwritten(items[i], r),
                    None => items[i],
                }
            &&& u.rules == rule_ops(rules, rs, key_ids(items, rs), n)
        }),
    decreases n,
{
    if n > 0 {
        let m = (n - 1) as nat;
        law_held_keys_update_in_place(items, rules, rs, ids, now, m);
        let p = import_fold(items, rules, rs, ids, now, m);
        let u = import_fold(items, rules, rs, ids, now, n);
        let r = rs[m as int];
        let e = r.external_id@;
        assert(held(items, e) >= 0);
        assert forall|i: int| 0 <= i < items.len() implies #[trigger] items[i].external_id
            == p.items[i].external_id by {
            if let Some(q) = last_at(rs, items, i, m) {
                lemma_overwritten_twice(items[i], q, q);
            }
        }
        lemma_held_same_keys(items, p.items, e);
        let h = held(items, e);
        lemma_held_from(items, e, 0);
        if let Some(q) = last_at(rs, items, h, m) {
            lemma_overwritten_twice(items[h], q, r);
        }
        assert forall|i: int|
            #![trigger u.items[i]]
            0 <= i < items.len() implies u.items[i] == match last_at(rs, items, i, n) {
                Some(q) => overwritten(items[i], q),
                None => items[i],
            } by {
            if i != h {
                assert(u.items[i] == p.items[i]);
            }
        }
        assert(key_ids(items, rs)[m as int] == items[h].id);
        if let Some(q) = last_at(rs, items, h, m) {
            lemma_overwritten_twice(items[h], q, q);
        }
    }
}

/// A store that extends another, key for key, finds a key the shorter one
/// holds in the same place, and the shorter one holds no key the longer one
/// first finds past its end.
proof fn lemma_held_prefix(a: Seq<ItemV>, b: Seq<ItemV>, e: Seq<char>)
    requires
        a.len() <= b.len(),
        forall|i: int| 0 <= i < a.len() ==> #[trigger] a[i].external_id == b[i].external_id,
    ensures
        held(b, e) < a.len() ==> held(a, e) == held(b, e),
        held(b, e) == -1 || held(b, e) >= a.len() ==> held(a, e) == -1,
{
    lemma_held_from(b, e, 0);
    let h = held(b, e);
    if 0 <= h < a.len() {
        assert(a[h].external_id == b[h].external_id);
        assert forall|j: int| #![trigger a[j]] 0 <= j < h implies a[j].external_id != Some(e) by {
            assert(a[j].external_id == b[j].external_id);
        }
        lemma_held_is(a, e, h);
    } else {
        assert forall|j: int| #![trigger a[j]] 0 <= j < a.len() implies a[j].external_id != Some(e) by {
            assert(a[j].external_id == b[j].external_id);
        }
        lemma_held_is(a, e, -1);
    }
}

/// In any batch, an item already in the store keeps its place, and becomes
/// the last record of the batch that carries its key written over it: title,
/// tags, category, place, listing, due date, estimate and repeat from the
/// record; its id, key, source, creation and completions as they were. An
/// item no record names is left as it was.
pub proof fn law_held_key_takes_its_last_record(
    items: Seq<ItemV>,
    rules: Seq<RawRuleV>,
    rs: Seq<ImportRecord>,
    ids: Seq<Seq<char>>,
    now: Stamp,
    n: nat,
)
    requires
        n <= rs.len(),
    ensures
        ({
            let u = import_fold(items, rules, rs, ids, now, n);
            &&& u.items.len() >= items.len()
            &&& forall|i: int|
                #![trigger u.items[i]]
                0 <= i < items.len() ==> u.items[i] == match last_at(rs, items, i, n) {
                    Some(r) => overwritten(items[i], r),
                    None => items[i],
                }
        }),
    decreases n,
{
    lemma_run(items, rules, rs, ids, now, n);
    if n > 0 {
        let m = (n - 1) as nat;
        law_held_key_takes_its_last_record(items, rules, rs, ids, now, m);
        lemma_run(items, rules, rs, ids, now, m);
        let p = import_fold(items, rules, rs, ids, now, m);
        let u = import_fold(items, rules, rs, ids, now, n);
        let r = rs[m as int];
        let e = r.external_id@;
        assert forall|i: int| 0 <= i < items.len() implies #[trigger] items[i].external_id
            == p.items[i].external_id by {
            assert(p.items[i].external_id == items[i].external_id);
        }
        lemma_held_prefix(items, p.items, e);
        lemma_held_from(p.items, e, 0);
        let k = held(p.items, e);
        if 0 <= k < items.len() {
            if let Some(q) = last_at(rs, items, k, m) {
                lemma_overwritten_twice(items[k], q, r);
            }
        }
        assert forall|i: int|
            #![trigger u.items[i]]
            0 <= i < items.len() implies u.items[i] == match last_at(rs, items, i, n) {
                Some(q) => overwritten(items[i], q),
                None => items[i],
            } by {
            if i != k {
                assert(u.items[i] == p.items[i]);
            }
        }
    }
}

/// Re-running an identical import changes nothing: the second run wants no
/// fresh id (so a valid batch cannot be refused), the items are exactly as the
/// first run left them, nothing is added, every record counts as an update,
/// and every item's rule is the one the first run left (rules are kept one per
/// item, so the same rules are stored).
pub proof fn law_import_twice_changes_nothing(
    items: Seq<ItemV>,
    rules: Seq<RawRuleV>,
    rs: Seq<ImportRecord>,
    first_ids: Seq<Seq<char>>,
    second_ids: Seq<Seq<char>>,
    now: Stamp,
    later: Stamp,
)
    requires
        rules_unique(rules),
    ensures
        ({
            let s1 = import_fold(items, rules, rs, first_ids, now, rs.len() as nat);
            let s2 = import_fold(s1.items, s1.rules, rs, second_ids, later, rs.len() as nat);
            &&& adds(s1.items, rs, rs.len() as nat) == 0
            &&& s2.items == s1.items
            &&& s2.added == 0
            &&& s2.updated == rs.len()
            &&& rules_unique(s1.rules)
            &&& rules_unique(s2.rules)
            &&& forall|id: Seq<char>| #[trigger] rule_of(s2.rules, id) == rule_of(s1.rules, id)
        }),
{
    let n = rs.len() as nat;
    lemma_run(items, rules, rs, first_ids, now, n);
    let s1 = import_fold(items, rules, rs, first_ids, now, n);
    law_held_keys_update_in_place(s1.items, s1.rules, rs, second_ids, later, n);
    let s2 = import_fold(s1.items, s1.rules, rs, second_ids, later, n);
    lemma_adds(s1.items, s1.rules, rs, second_ids, later, n);
    assert forall|i: int| 0 <= i < s1.items.len() implies #[trigger] s2.items[i] == s1.items[i] by {
        assert(0 <= i < s1.items.len() ==> (last_at(rs, s1.items, i, n) matches Some(r) ==> s1.items[i]
            == overwritten(s1.items[i], r)));
    }
    assert(s2.items =~= s1.items);
    let k = key_ids(s1.items, rs);
    lemma_rule_ops(rules, rs, k, n, Seq::empty());
    lemma_rule_ops(s1.rules, rs, k, n, Seq::empty());
    assert forall|id: Seq<char>| #[trigger] rule_of(s2.rules, id) == rule_of(s1.rules, id) by {
        lemma_rule_ops(rules, rs, k, n, id);
        lemma_rule_ops(s1.rules, rs, k, n, id);
        lemma_key_twice(rule_of(rules, id), id, rs, k, n);
    }
}

proof fn lemma_rule_ops_other(rules: Seq<RawRuleV>, rs: Seq<ImportRecord>, ids: Seq<Seq<char>>, n: nat, x: Seq<char>)
    requires
        forall|j: int| 0 <= j < n ==> #[trigger] ids[j] != x,
    ensures
        rule_of(rule_ops(rules, rs, ids, n), x) == rule_of(rules, x),
    decreases n,
{
    if n > 0 {
        let m = (n - 1) as nat;
        lemma_rule_ops_other(rules, rs, ids, m, x);
        assert(ids[m as int] != x);
        lemma_rule_written_other(rule_ops(rules, rs, ids, m), ids[m as int], rs[m as int], x);
    }
}

/// An import never touches what was typed by hand: an item without a key, and
/// its rule, are as they were. (Fresh ids are drawn clear of the store's.)
pub proof fn law_import_leaves_own_items(
    items: Seq<ItemV>,
    rules: Seq<RawRuleV>,
    rs: Seq<ImportRecord>,
    ids: Seq<Seq<char>>,
    now: Stamp,
)
    requires
        item_ids_unique(items),
        ids.len() >= adds(items, rs, rs.len() as nat),
        crate::import::ids_clear(ids, items),
    ensures
        ({
            let s = import_fold(items, rules, rs, ids, now, rs.len() as nat);
            forall|i: int|
                #![trigger items[i]]
                0 <= i < items.len() && items[i].external_id is None ==> s.items[i] == items[i] && rule_of(
                    s.rules,
                    items[i].id,
                ) == rule_of(rules, items[i].id)
        }),
{
    let n = rs.len() as nat;
    lemma_run(items, rules, rs, ids, now, n);
    lemma_adds(items, rules, rs, ids, now, n);
    let s = import_fold(items, rules, rs, ids, now, n);
    let k = key_ids(s.items, rs);
    assert forall|i: int|
        #![trigger items[i]]
        0 <= i < items.len() && items[i].external_id is None implies s.items[i] == items[i] && rule_of(
            s.rules,
            items[i].id,
        ) == rule_of(rules, items[i].id) by {
        assert(s.items[i] == items[i]);
        let x = items[i].id;
        assert forall|j: int| 0 <= j < n implies #[trigger] k[j] != x by {
            let e = rs[j].external_id@;
            let h = held(s.items, e);
            assert(h >= 0);
            lemma_held_from(s.items, e, 0);
            assert(s.items[h].external_id == Some(e));
            if h < items.len() {
                assert(s.items[h].id == items[h].id);
                assert(h != i);
                if h < i {
                    assert(items[h].id != items[i].id);
                } else {
                    assert(items[i].id != items[h].id);
                }
            } else {
                assert(s.items[h].id == ids[h - items.len()]);
                assert(ids[h - items.len()] != items[i].id);
            }
        }
        lemma_rule_ops_other(rules, rs, k, n, x);
    }
}

/// An import keeps the store valid: no two items share an id, and each item
/// has at most one rule.
pub proof fn law_import_keeps_store_valid(
    items: Seq<ItemV>,
    rules: Seq<RawRuleV>,
    rs: Seq<ImportRecord>,
    ids: Seq<Seq<char>>,
    now: Stamp,
)
    requires
        item_ids_unique(items),
        rules_unique(rules),
        ids.len() >= adds(items, rs, rs.len() as nat),
        crate::import::ids_clear(ids, items),
    ensures
        item_ids_unique(import_fold(items, rules, rs, ids, now, rs.len() as nat).items),
        rules_unique(import_fold(items, rules, rs, ids, now, rs.len() as nat).rules),
{
    let n = rs.len() as nat;
    lemma_run(items, rules, rs, ids, now, n);
    lemma_adds(items, rules, rs, ids, now, n);
    let s = import_fold(items, rules, rs, ids, now, n);
    lemma_rule_ops(rules, rs, key_ids(s.items, rs), n, Seq::empty());
    let base = items.len() as int;
    assert forall|i: int, j: int| #![trigger s.items[i], s.items[j]] 0 <= i < j < s.items.len() implies s.items[i].id
        != s.items[j].id by {
        if j < base {
            assert(items[i].id != items[j].id);
        } else if i < base {
            assert(ids[j - base] != items[i].id);
        } else {
            assert(ids[i - base] != ids[j - base]);
        }
    }
}


proof fn lemma_last_at_only(rs: Seq<ImportRecord>, items: Seq<ItemV>, idx: int, n: nat, j: int)
    requires
        0 <= j < n <= rs.len(),
        held(items, rs[j].external_id@) == idx,
        forall|m: int| 0 <= m < n && m != j ==> held(items, #[trigger] rs[m].external_id@) != idx,
    ensures
        last_at(rs, items, idx, n) == Some(rs[j]),
    decreases n,
{
    if n - 1 != j {
        assert(held(items, rs[n - 1].external_id@) != idx);
        lemma_last_at_only(rs, items, idx, (n - 1) as nat, j);
    }
}

proof fn lemma_key_fold_untouched(v: Option<RawRuleV>, key: Seq<char>, rs: Seq<ImportRecord>, ids: Seq<Seq<char>>, n: nat)
    requires
        forall|m: int| 0 <= m < n ==> #[trigger] ids[m] != key,
    ensures
        key_fold(v, key, rs, ids, n) == v,
    decreases n,
{
    if n > 0 {
        assert(ids[n - 1] != key);
        lemma_key_fold_untouched(v, key, rs, ids, (n - 1) as nat);
    }
}

proof fn lemma_key_fold_once(v: Option<RawRuleV>, key: Seq<char>, rs: Seq<ImportRecord>, ids: Seq<Seq<char>>, n: nat, j: int)
    requires
        0 <= j < n,
        ids[j] == key,
        forall|m: int| 0 <= m < n && m != j ==> #[trigger] ids[m] != key,
    ensures
        key_fold(v, key, rs, ids, n) == rule_after(v, key, rs[j]),
    decreases n,
{
    if n - 1 == j {
        lemma_key_fold_untouched(v, key, rs, ids, j as nat);
    } else {
        assert(ids[n - 1] != key);
        lemma_key_fold_once(v, key, rs, ids, (n - 1) as nat, j);
    }
}

/// Each record of a batch with distinct keys lands on the one item that holds
/// its key afterwards: the item takes the record's title, tags, category
/// (the first tag naming one), place, due date, estimate and repeat, and is
/// listed exactly when the record does not repeat; its rule is the record's
/// repeat (its weekdays, hours and zone), or there is none when the record
/// does not repeat; and each item keeps at most one rule.
pub proof fn law_each_record_lands(
    items: Seq<ItemV>,
    rules: Seq<RawRuleV>,
    rs: Seq<ImportRecord>,
    ids: Seq<Seq<char>>,
    now: Stamp,
    j: int,
)
    requires
        0 <= j < rs.len(),
        forall|a: int, b: int|
            0 <= a < b < rs.len() ==> (#[trigger] rs[a]).external_id@ != (#[trigger] rs[b]).external_id@,
        item_ids_unique(items),
        rules_unique(rules),
        ids.len() >= adds(items, rs, rs.len() as nat),
        crate::import::ids_clear(ids, items),
    ensures
        ({
            let u = import_fold(items, rules, rs, ids, now, rs.len() as nat);
            let h = held(u.items, rs[j].external_id@);
            &&& 0 <= h < u.items.len()
            &&& u.items[h] == overwritten(u.items[h], rs[j])
            &&& u.items[h].listed == rs[j].repeat is None
            &&& u.items[h].category == import_category(record_tags(rs[j]))
            &&& match rs[j].repeat {
                None => rule_of(u.rules, u.items[h].id) is None,
                Some(rep) => rule_of(u.rules, u.items[h].id) matches Some(x) && x == rewritten(x, rep),
            }
            &&& rules_unique(u.rules)
        }),
{
    let n = rs.len() as nat;
    lemma_run(items, rules, rs, ids, now, n);
    law_import_keeps_store_valid(items, rules, rs, ids, now);
    let u = import_fold(items, rules, rs, ids, now, n);
    let e = rs[j].external_id@;
    let h = held(u.items, e);
    assert(h >= 0);
    lemma_held_from(u.items, e, 0);
    assert forall|m: int| 0 <= m < n && m != j implies held(u.items, #[trigger] rs[m].external_id@) != h by {
        let em = rs[m].external_id@;
        assert(held(u.items, em) >= 0);
        lemma_held_from(u.items, em, 0);
        if m < j {
            assert(rs[m].external_id@ != rs[j].external_id@);
        } else {
            assert(rs[j].external_id@ != rs[m].external_id@);
        }
    }
    lemma_last_at_only(rs, u.items, h, n, j);
    assert(last_at(rs, u.items, h, n) == Some(rs[j]));
    let k = key_ids(u.items, rs);
    let id = u.items[h].id;
    assert(k[j] == id);
    assert forall|m: int| 0 <= m < n && m != j implies #[trigger] k[m] != id by {
        let hm = held(u.items, rs[m].external_id@);
        assert(hm != h);
        lemma_held_from(u.items, rs[m].external_id@, 0);
        assert(k[m] == u.items[hm].id);
        if hm < h {
            assert(u.items[hm].id != u.items[h].id);
        } else {
            assert(u.items[h].id != u.items[hm].id);
        }
    }
    lemma_rule_ops(rules, rs, k, n, id);
    lemma_key_fold_once(rule_of(rules, id), id, rs, k, n, j);
}

} // verus!
