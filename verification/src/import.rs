//! Bulk import, keyed on a caller-owned `external_id`.
//!
//! A batch applies completely or not at all: the whole batch is checked before
//! anything is written, and the first record that cannot be stored refuses it.
//! Re-running a batch updates what it added rather than adding it again.
use vstd::prelude::*;
use crate::compose::dec;
use crate::rules::{RawRule, RawRuleV, rules_v};
use crate::store::{
    Item, clone_opt_string, comma_join, fresh_id, item_prefix, items_v, join_commas, new_id, parse_ts,
    split_tags,
};
use crate::text::string_from;
use crate::store::ItemV;
use crate::upsert::{
    ImportState, adds, key_before, lemma_adds, lemma_adds_grow, blank_rule, fresh_item, held, held_from, import_fold, import_source, overwritten,
    rewritten, rule_at, rule_from, rule_written,
};
use crate::zone::Stamp;
use crate::text::{chars_of, is_blank, lower, lower_vec, opt_str, string_of, trim, trim_chars};
use crate::words::{category_index, category_index_of};
use crate::zone::{debug_text, quoted, tz_known, zone_known};

verus! {

/// One record in a bulk import. `external_id` is required and caller-owned:
/// it is what makes a re-run a no-op instead of a duplicate.
#[derive(Clone, Debug, PartialEq)]
pub struct ImportRecord {
    pub external_id: String,
    pub title: String,
    pub due_at: Option<String>,
    pub estimate_min: Option<u32>,
    pub tags: Vec<String>,
    pub location: Option<String>,
    /// A weekly commitment: a class, a shift.
    pub repeat: Option<ImportRepeat>,
}

#[derive(Clone, Debug, PartialEq)]
pub struct ImportRepeat {
    /// `mon` to `sun`.
    pub byday: Vec<String>,
    /// Wall clock, `HH:MM`.
    pub start_time: String,
    pub end_time: String,
    /// IANA zone to fix it to; omit to follow the machine.
    pub tz: Option<String>,
}

#[derive(Clone, Copy, Debug, PartialEq, Eq, Default, Structural)]
pub struct ImportOutcome {
    pub added: usize,
    pub updated: usize,
}

/// Why record `i` cannot be imported, if it cannot.
pub open spec fn record_problem(i: nat, r: ImportRecord) -> Option<Seq<char>> {
    if trim(r.external_id@).len() == 0 {
        Some("record "@ + dec(i) + " ("@ + debug_text(r.title@) + ") has no external_id; nothing was imported"@)
    } else if trim(r.title@).len() == 0 {
        Some("record "@ + dec(i) + " has an empty title; nothing was imported"@)
    } else {
        match r.repeat {
            None => None,
            Some(rep) => if rep.byday.len() == 0 {
                Some("record "@ + dec(i) + " ("@ + debug_text(r.title@) + ") repeats on no days; nothing was imported"@)
            } else {
                match rep.tz {
                    Some(tz) => if tz_known(tz@) {
                        None
                    } else {
                        Some(
                            "record "@ + dec(i) + " ("@ + debug_text(r.title@) + ") has unknown time zone "@
                                + debug_text(tz@) + "; nothing was imported"@,
                        )
                    },
                    None => None,
                }
            },
        }
    }
}

/// The first record, from `i` on, that cannot be imported, and why.
pub open spec fn first_problem(rs: Seq<ImportRecord>, i: int) -> Option<Seq<char>>
    decreases rs.len() - i,
{
    if i < 0 || i >= rs.len() {
        None
    } else {
        match record_problem(i as nat, rs[i]) {
            Some(m) => Some(m),
            None => first_problem(rs, i + 1),
        }
    }
}

pub fn dec_usize(n: usize) -> (r: String)
    ensures
        r@ == dec(n as nat),
    decreases n,
{
    if n < 10 {
        let mut v: Vec<char> = Vec::new();
        v.push(((n + 48) as u8) as char);
        assert(v@ =~= dec(n as nat));
        string_of(&v)
    } else {
        let mut s = dec_usize(n / 10);
        let mut v: Vec<char> = Vec::new();
        v.push((((n % 10) + 48) as u8) as char);
        s.append(string_of(&v).as_str());
        assert(s@ =~= dec(n as nat));
        s
    }
}

fn problem_of(i: usize, r: &ImportRecord) -> (m: Option<String>)
    ensures
        opt_str(m) == record_problem(i as nat, *r),
{
    if is_blank(r.external_id.as_str()) {
        let mut m = String::from_str("record ");
        m.append(dec_usize(i).as_str());
        m.append(" (");
        m.append(quoted(r.title.as_str()).as_str());
        m.append(") has no external_id; nothing was imported");
        return Some(m);
    }
    if is_blank(r.title.as_str()) {
        let mut m = String::from_str("record ");
        m.append(dec_usize(i).as_str());
        m.append(" has an empty title; nothing was imported");
        return Some(m);
    }
    match &r.repeat {
        None => None,
        Some(rep) => {
            if rep.byday.len() == 0 {
                let mut m = String::from_str("record ");
                m.append(dec_usize(i).as_str());
                m.append(" (");
                m.append(quoted(r.title.as_str()).as_str());
                m.append(") repeats on no days; nothing was imported");
                return Some(m);
            }
            match &rep.tz {
                Some(tz) => if zone_known(tz.as_str()) {
                    None
                } else {
                    let mut m = String::from_str("record ");
                    m.append(dec_usize(i).as_str());
                    m.append(" (");
                    m.append(quoted(r.title.as_str()).as_str());
                    m.append(") has unknown time zone ");
                    m.append(quoted(tz.as_str()).as_str());
                    m.append("; nothing was imported");
                    Some(m)
                },
                None => None,
            }
        },
    }
}

/// Check a whole batch before anything is written: the first record that
/// cannot be imported refuses the batch, and says which and why.
pub fn check_batch(records: &Vec<ImportRecord>) -> (r: Result<(), String>)
    ensures
        match r {
            Ok(()) => first_problem(records@, 0) is None,
            Err(m) => first_problem(records@, 0) == Some(m@),
        },
{
    let mut i: usize = 0;
    while i < records.len()
        invariant
            i <= records.len(),
            first_problem(records@, 0) == first_problem(records@, i as int),
        decreases records.len() - i,
    {
        match problem_of(i, &records[i]) {
            Some(m) => {
                return Err(m);
            },
            None => {},
        }
        i = i + 1;
    }
    Ok(())
}

/// The first tag that names a colour category, lower-cased.
pub open spec fn import_category(tags: Seq<Seq<char>>) -> Option<Seq<char>>
    decreases tags.len(),
{
    if tags.len() == 0 {
        None
    } else if category_index(lower(tags[0])) is Some {
        Some(lower(tags[0]))
    } else {
        import_category(tags.drop_first())
    }
}

/// What an imported record stores besides what it carries as is.
#[derive(Clone, Debug, PartialEq)]
pub struct ImportRow {
    /// The tags joined by commas.
    pub tags: String,
    /// Only what does not repeat belongs in the to-do list: a timetabled
    /// commitment occupies the week instead.
    pub listed: bool,
    pub category: Option<String>,
    /// The rule, when it repeats: weekday codes joined by commas.
    pub byday: Option<String>,
}

/// The stored form of an imported record.
pub fn import_row(r: &ImportRecord) -> (x: ImportRow)
    ensures
        x.tags@ == comma_join(r.tags@.map_values(|t: String| t@)),
        x.listed == r.repeat is None,
        opt_str(x.category) == import_category(r.tags@.map_values(|t: String| t@)),
        opt_str(x.byday) == match r.repeat {
            Some(rep) => Some(comma_join(rep.byday@.map_values(|t: String| t@))),
            None => None,
        },
{
    let ghost ts = r.tags@.map_values(|t: String| t@);
    let mut category: Option<String> = None;
    let mut i: usize = 0;
    assert(ts.skip(0) =~= ts);
    while i < r.tags.len()
        invariant_except_break
            category is None,
            import_category(ts) == import_category(ts.skip(i as int)),
        invariant
            i <= r.tags.len(),
            ts == r.tags@.map_values(|t: String| t@),
        ensures
            opt_str(category) == import_category(ts),
        decreases r.tags.len() - i,
    {
        let low = lower_vec(&chars_of(r.tags[i].as_str()));
        assert(ts.skip(i as int)[0] == r.tags@[i as int]@);
        if category_index_of(&low).is_some() {
            category = Some(string_of(&low));
            break;
        }
        assert(ts.skip(i as int).drop_first() =~= ts.skip(i + 1));
        i = i + 1;
    }
    ImportRow {
        tags: join_commas(&r.tags),
        listed: r.repeat.is_none(),
        category,
        byday: match &r.repeat {
            Some(rep) => Some(join_commas(&rep.byday)),
            None => None,
        },
    }
}

/// Where `items` holds the item imported under `ext`.
fn held_index(items: &Vec<Item>, ext: &String) -> (r: Option<usize>)
    ensures
        match r {
            Some(k) => k < items.len() && held(items_v(items@), ext@) == k as int,
            None => held(items_v(items@), ext@) == -1,
        },
{
    let ghost v = items_v(items@);
    let mut k: usize = 0;
    while k < items.len()
        invariant
            k <= items.len(),
            v == items_v(items@),
            held(v, ext@) == held_from(v, ext@, k as int),
        decreases items.len() - k,
    {
        let same = match &items[k].external_id {
            Some(e) => *e == *ext,
            None => false,
        };
        assert(v[k as int] == items@[k as int]@);
        if same {
            return Some(k);
        }
        k = k + 1;
    }
    None
}

/// Where `rules` holds the rule of item `id`.
fn rule_index(rules: &Vec<RawRule>, id: &String) -> (r: Option<usize>)
    ensures
        match r {
            Some(k) => k < rules.len() && rule_at(rules_v(rules@), id@) == k as int,
            None => rule_at(rules_v(rules@), id@) == -1,
        },
{
    let ghost v = rules_v(rules@);
    let mut k: usize = 0;
    while k < rules.len()
        invariant
            k <= rules.len(),
            v == rules_v(rules@),
            rule_at(v, id@) == rule_from(v, id@, k as int),
        decreases rules.len() - k,
    {
        let same = rules[k].item_id == *id;
        assert(v[k as int] == rules@[k as int]@);
        if same {
            return Some(k);
        }
        k = k + 1;
    }
    None
}

/// Write or clear the rule of item `id` as record `r` says.
fn write_rule(rules: &mut Vec<RawRule>, id: &String, r: &ImportRecord)
    ensures
        rules_v(final(rules)@) == rule_written(rules_v(old(rules)@), id@, *r),
{
    let k = rule_index(rules, id);
    let ghost before = rules_v(rules@);
    match &r.repeat {
        None => match k {
            Some(k) => {
                let _gone = rules.remove(k);
                assert(rules_v(rules@) =~= before.remove(k as int));
            },
            None => {},
        },
        Some(rep) => match k {
            Some(k) => {
                let mut x = rules.remove(k);
                assert(x@ == before[k as int]);
                x.byday = join_commas(&rep.byday);
                x.start_time = rep.start_time.clone();
                x.end_time = rep.end_time.clone();
                x.tz = clone_opt_string(&rep.tz);
                rules.insert(k, x);
                assert(rules_v(rules@) =~= before.update(k as int, rewritten(before[k as int], *rep)));
            },
            None => {
                let x = RawRule {
                    item_id: id.clone(),
                    byday: join_commas(&rep.byday),
                    monthday: None,
                    start_time: rep.start_time.clone(),
                    end_time: rep.end_time.clone(),
                    tz: clone_opt_string(&rep.tz),
                    from_date: string_from(&['1', '9', '7', '0', '-', '0', '1', '-', '0', '1']),
                    until_date: None,
                    except_on: String::new(),
                };
                assert(['1', '9', '7', '0', '-', '0', '1', '-', '0', '1']@ =~= crate::upsert::epoch_date());
                assert(x@ == rewritten(blank_rule(id@), *rep));
                rules.push(x);
                assert(rules_v(rules@) =~= before.push(rewritten(blank_rule(id@), *rep)));
            },
        },
    }
}

/// Write record `r` over an item.
fn overwrite(it: &mut Item, r: &ImportRecord)
    ensures
        final(it)@ == overwritten(old(it)@, *r),
{
    let row = import_row(r);
    it.title = r.title.clone();
    it.tags = split_tags(row.tags.as_str());
    it.category = row.category;
    it.location = clone_opt_string(&r.location);
    it.listed = row.listed;
    it.due_at = match &r.due_at {
        Some(d) => Some(parse_ts(d.as_str())),
        None => None,
    };
    it.estimate_min = r.estimate_min;
    it.recurs = r.repeat.is_some();
}

/// The item record `r` adds under a fresh id.
fn fresh_of(r: &ImportRecord, id: String, now: Stamp) -> (x: Item)
    ensures
        x@ == fresh_item(*r, id@, now),
{
    let mut it = Item {
        id,
        title: r.title.clone(),
        tags: Vec::new(),
        category: None,
        location: None,
        listed: true,
        due_at: None,
        estimate_min: None,
        recurs: false,
        done_on: Vec::new(),
        completed: false,
        completed_at: None,
        created_at: Stamp { secs: now.secs, nanos: now.nanos, offset: 0 },
        source: string_from(&['i', 'm', 'p', 'o', 'r', 't']),
        external_id: Some(r.external_id.clone()),
    };
    assert(['i', 'm', 'p', 'o', 'r', 't']@ =~= import_source());
    assert(it.tags@.map_values(|t: String| t@) =~= Seq::<Seq<char>>::empty());
    overwrite(&mut it, r);
    it
}

/// The refusal when a fresh id is already taken.
pub open spec fn taken_message() -> Seq<char> {
    "UNIQUE constraint failed: items.id"@
}

/// Ids drawn for a batch: none already an item's, none twice.
pub open spec fn ids_clear(ids: Seq<Seq<char>>, items: Seq<ItemV>) -> bool {
    &&& forall|k: int, i: int|
        #![trigger ids[k], items[i]]
        0 <= k < ids.len() && 0 <= i < items.len() ==> ids[k] != items[i].id
    &&& forall|k: int, j: int| #![trigger ids[k], ids[j]] 0 <= k < j < ids.len() ==> ids[k] != ids[j]
}

/// Fresh item ids, clear of the store and of each other.
pub open spec fn ids_free(ids: Seq<Seq<char>>, items: Seq<ItemV>) -> bool {
    &&& forall|k: int| 0 <= k < ids.len() ==> fresh_id(item_prefix(), #[trigger] ids[k])
    &&& ids_clear(ids, items)
}

fn clear_of(fresh: &Vec<String>, items: &Vec<Item>) -> (r: bool)
    ensures
        r == ids_clear(fresh@.map_values(|s: String| s@), items_v(items@)),
{
    let ghost ids = fresh@.map_values(|s: String| s@);
    let ghost v = items_v(items@);
    let mut k: usize = 0;
    while k < fresh.len()
        invariant
            k <= fresh.len(),
            ids == fresh@.map_values(|s: String| s@),
            v == items_v(items@),
            forall|a: int, i: int|
                #![trigger ids[a], v[i]]
                0 <= a < k && 0 <= i < v.len() ==> ids[a] != v[i].id,
            forall|a: int, b: int| #![trigger ids[a], ids[b]] 0 <= a < b < ids.len() && a < k ==> ids[a] != ids[b],
        decreases fresh.len() - k,
    {
        let mut i: usize = 0;
        while i < items.len()
            invariant
                k < fresh.len(),
                i <= items.len(),
                ids == fresh@.map_values(|s: String| s@),
                v == items_v(items@),
                forall|j: int| #![trigger v[j]] 0 <= j < i ==> ids[k as int] != v[j].id,
            decreases items.len() - i,
        {
            assert(v[i as int].id == items@[i as int].id@);
            if fresh[k] == items[i].id {
                assert(ids[k as int] == v[i as int].id);
                return false;
            }
            i = i + 1;
        }
        let mut j: usize = k + 1;
        while j < fresh.len()
            invariant
                k < j <= fresh.len(),
                ids == fresh@.map_values(|s: String| s@),
                forall|b: int| #![trigger ids[b]] k < b < j ==> ids[k as int] != ids[b],
            decreases fresh.len() - j,
        {
            if fresh[k] == fresh[j] {
                assert(ids[k as int] == ids[j as int]);
                return false;
            }
            j = j + 1;
        }
        k = k + 1;
    }
    true
}

/// How many records of the batch add an item, and so want a fresh id: those
/// whose key neither the store nor an earlier record holds.
pub fn new_keys(items: &Vec<Item>, records: &Vec<ImportRecord>) -> (r: usize)
    ensures
        r == adds(items_v(items@), records@, records.len() as nat),
{
    let ghost v = items_v(items@);
    let mut count: usize = 0;
    let mut i: usize = 0;
    while i < records.len()
        invariant
            i <= records.len(),
            v == items_v(items@),
            count == adds(v, records@, i as nat),
            count <= i,
        decreases records.len() - i,
    {
        let ext = &records[i].external_id;
        let held_now = held_index(items, ext).is_some();
        let mut seen = false;
        let mut j: usize = 0;
        while j < i
            invariant
                j <= i,
                i < records.len(),
                *ext == records@[i as int].external_id,
                seen == key_before(records@, ext@, j as int),
            decreases i - j,
        {
            if records[j].external_id == *ext {
                assert(records@[j as int].external_id@ == ext@);
                seen = true;
            } else {
                assert forall|q: int| 0 <= q < j + 1 && #[trigger] records@[q].external_id@ == ext@ implies q < j by {
                    if q == j {
                        assert(records@[j as int].external_id@ != ext@);
                    }
                }
            }
            j = j + 1;
        }
        if !held_now && !seen {
            count = count + 1;
        }
        i = i + 1;
    }
    count
}

/// Upsert a batch keyed on `external_id`, completely or not at all, the k-th
/// item it adds taking `fresh[k]`.
///
/// The whole batch is checked before anything is written: the first record
/// that cannot be imported refuses it, and nothing changes. Then, should one of
/// the given ids be an item's already, or two of them be the same, the batch is
/// refused and nothing changes. Otherwise each record, in order, overwrites the
/// item already imported under its key, or adds an item with the next id, and
/// then writes its weekly rule, or clears it when the record no longer
/// repeats. Items typed by hand carry no key and are never matched.
#[verifier::rlimit(40)]
pub fn import_with_ids(
    items: &mut Vec<Item>,
    rules: &mut Vec<RawRule>,
    records: &Vec<ImportRecord>,
    fresh: &Vec<String>,
    now: Stamp,
) -> (r: Result<ImportOutcome, String>)
    requires
        fresh.len() == adds(items_v(old(items)@), records@, records.len() as nat),
    ensures
        ({
            let ids = fresh@.map_values(|s: String| s@);
            match r {
                Err(m) => {
                    &&& final(items)@ == old(items)@
                    &&& final(rules)@ == old(rules)@
                    &&& (first_problem(records@, 0) == Some(m@) || (first_problem(records@, 0) is None
                        && !ids_clear(ids, items_v(old(items)@)) && m@ == taken_message()))
                },
                Ok(o) => {
                    let st = import_fold(
                        items_v(old(items)@),
                        rules_v(old(rules)@),
                        records@,
                        ids,
                        now,
                        records.len() as nat,
                    );
                    &&& first_problem(records@, 0) is None
                    &&& ids_clear(ids, items_v(old(items)@))
                    &&& st.items == items_v(final(items)@)
                    &&& st.rules == rules_v(final(rules)@)
                    &&& st.added == o.added
                    &&& st.updated == o.updated
                },
            }
        }),
{
    match check_batch(records) {
        Err(m) => {
            return Err(m);
        },
        Ok(()) => {},
    }
    let ghost ids = fresh@.map_values(|s: String| s@);
    if !clear_of(fresh, items) {
        return Err(String::from_str("UNIQUE constraint failed: items.id"));
    }
    let ghost items0 = items_v(items@);
    let ghost rules0 = rules_v(rules@);
    let mut added: usize = 0;
    let mut updated: usize = 0;
    let mut i: usize = 0;
    while i < records.len()
        invariant
            i <= records.len(),
            added + updated == i,
            fresh.len() == adds(items0, records@, records.len() as nat),
            ids == fresh@.map_values(|s: String| s@),
            import_fold(items0, rules0, records@, ids, now, i as nat).items == items_v(items@),
            import_fold(items0, rules0, records@, ids, now, i as nat).rules == rules_v(rules@),
            import_fold(items0, rules0, records@, ids, now, i as nat).added == added,
            import_fold(items0, rules0, records@, ids, now, i as nat).updated == updated,
        decreases records.len() - i,
    {
        let r = &records[i];
        match held_index(items, &r.external_id) {
            Some(k) => {
                let ghost before = items_v(items@);
                let mut it = items.remove(k);
                assert(it@ == before[k as int]);
                let id = it.id.clone();
                overwrite(&mut it, r);
                items.insert(k, it);
                assert(items_v(items@) =~= before.update(k as int, overwritten(before[k as int], *r)));
                write_rule(rules, &id, r);
                updated = updated + 1;
            },
            None => {
                proof {
                    lemma_adds(items0, rules0, records@, ids, now, i as nat);
                    lemma_adds(items0, rules0, records@, ids, now, (i + 1) as nat);
                    lemma_adds_grow(items0, records@, (i + 1) as nat, records.len() as nat);
                }
                let id = fresh[added].clone();
                assert(id@ == ids[added as int]);
                let ghost before = items_v(items@);
                items.push(fresh_of(r, id.clone(), now));
                assert(items_v(items@) =~= before.push(fresh_item(*r, ids[added as int], now)));
                write_rule(rules, &id, r);
                added = added + 1;
            },
        }
        i = i + 1;
    }
    Ok(ImportOutcome { added, updated })
}

/// Upsert a batch keyed on `external_id`, completely or not at all.
///
/// The whole batch is checked before anything is written: the first record
/// that cannot be imported refuses it, and nothing changes. Otherwise each
/// record, in order, overwrites the item already imported under its key, or
/// adds an item with a fresh id, and then writes its weekly rule, or clears it
/// when the record no longer repeats. Items typed by hand carry no key and are
/// never matched. A fresh id is drawn at random for each record that adds an
/// item, and for no other; should one be taken already, the batch is refused
/// and nothing changes. A valid batch that adds nothing (every key held
/// already, or no records) always succeeds.
pub fn import(items: &mut Vec<Item>, rules: &mut Vec<RawRule>, records: &Vec<ImportRecord>, now: Stamp) -> (r: Result<ImportOutcome, String>)
    ensures
        match r {
            Err(m) => {
                &&& final(items)@ == old(items)@
                &&& final(rules)@ == old(rules)@
                &&& (first_problem(records@, 0) == Some(m@) || (first_problem(records@, 0) is None
                    && m@ == taken_message()))
            },
            Ok(o) => {
                &&& first_problem(records@, 0) is None
                &&& exists|ids: Seq<Seq<char>>|
                    #![trigger import_fold(items_v(old(items)@), rules_v(old(rules)@), records@, ids, now, records.len() as nat)]
                    {
                        let st = import_fold(
                            items_v(old(items)@),
                            rules_v(old(rules)@),
                            records@,
                            ids,
                            now,
                            records.len() as nat,
                        );
                        &&& ids.len() == adds(items_v(old(items)@), records@, records.len() as nat)
                        &&& ids_free(ids, items_v(old(items)@))
                        &&& st.items == items_v(final(items)@)
                        &&& st.rules == rules_v(final(rules)@)
                        &&& st.added == o.added
                        &&& st.updated == o.updated
                    }
            },
        },
        first_problem(records@, 0) is None && adds(items_v(old(items)@), records@, records.len() as nat) == 0
            ==> r is Ok,
{
    let need = new_keys(items, records);
    let mut fresh: Vec<String> = Vec::new();
    let mut k: usize = 0;
    while k < need
        invariant
            k <= need,
            fresh.len() == k,
            forall|j: int| 0 <= j < k ==> fresh_id(item_prefix(), #[trigger] fresh@[j]@),
        decreases need - k,
    {
        fresh.push(new_id());
        k = k + 1;
    }
    let ghost ids = fresh@.map_values(|s: String| s@);
    assert forall|j: int| 0 <= j < ids.len() implies fresh_id(item_prefix(), #[trigger] ids[j]) by {
        assert(ids[j] == fresh@[j]@);
    }
    let r = import_with_ids(items, rules, records, &fresh, now);
    proof {
        if first_problem(records@, 0) is None && need == 0 {
            assert(ids_clear(ids, items_v(old(items)@)));
        }
    }
    r
}

/// The rules after the window sets an item's repeat: with no weekdays and no
/// day of the month the rule goes; otherwise its days, hours and day of the
/// month are rewritten, or, when it has none, a rule is made fixed to `zone`
/// and running from `today`.
pub open spec fn recurrence_set(
    rules: Seq<RawRuleV>,
    id: Seq<char>,
    days: Seq<Seq<char>>,
    start: Seq<char>,
    end: Seq<char>,
    monthday: Option<u32>,
    zone: Seq<char>,
    from: Seq<char>,
) -> Seq<RawRuleV> {
    let k = rule_at(rules, id);
    let md: Option<i64> = match monthday {
        Some(m) => Some(m as i64),
        None => None,
    };
    if days.len() == 0 && monthday is None {
        if k < 0 {
            rules
        } else {
            rules.remove(k)
        }
    } else if k < 0 {
        rules.push(
            RawRuleV {
                item_id: id,
                byday: comma_join(days),
                monthday: md,
                start_time: start,
                end_time: end,
                tz: Some(zone),
                from_date: from,
                until_date: None,
                except_on: Seq::empty(),
            },
        )
    } else {
        rules.update(k, RawRuleV { byday: comma_join(days), start_time: start, end_time: end, monthday: md, ..rules[k] })
    }
}

/// Set an item's repeat from the window's editor, as `recurrence_set` says.
pub fn set_recurrence(
    rules: &mut Vec<RawRule>,
    item_id: &String,
    byday: &Vec<String>,
    start_time: &str,
    end_time: &str,
    monthday: Option<u32>,
    zone: &crate::zone::Zone,
    today: crate::calendar::Date,
)
    requires
        today.wf(),
    ensures
        rules_v(final(rules)@) == recurrence_set(
            rules_v(old(rules)@),
            item_id@,
            byday@.map_values(|t: String| t@),
            start_time@,
            end_time@,
            monthday,
            zone@,
            crate::zone::ymd_text(today.year, today.month, today.day),
        ),
{
    let k = rule_index(rules, item_id);
    let ghost before = rules_v(rules@);
    let md: Option<i64> = match monthday {
        Some(m) => Some(m as i64),
        None => None,
    };
    if byday.len() == 0 && monthday.is_none() {
        if let Some(k) = k {
            let _gone = rules.remove(k);
            assert(rules_v(rules@) =~= before.remove(k as int));
        }
        return;
    }
    match k {
        Some(k) => {
            let mut x = rules.remove(k);
            assert(x@ == before[k as int]);
            x.byday = join_commas(byday);
            x.start_time = start_time.to_owned();
            x.end_time = end_time.to_owned();
            x.monthday = md;
            rules.insert(k, x);
            assert(rules_v(rules@) =~= before.update(
                k as int,
                RawRuleV {
                    byday: comma_join(byday@.map_values(|t: String| t@)),
                    start_time: start_time@,
                    end_time: end_time@,
                    monthday: md,
                    ..before[k as int]
                },
            ));
        },
        None => {
            let x = RawRule {
                item_id: item_id.clone(),
                byday: join_commas(byday),
                monthday: md,
                start_time: start_time.to_owned(),
                end_time: end_time.to_owned(),
                tz: Some(zone.name().to_owned()),
                from_date: crate::zone::date_text(&today),
                until_date: None,
                except_on: String::new(),
            };
            rules.push(x);
            assert(rules_v(rules@) =~= before.push(
                RawRuleV {
                    item_id: item_id@,
                    byday: comma_join(byday@.map_values(|t: String| t@)),
                    monthday: md,
                    start_time: start_time@,
                    end_time: end_time@,
                    tz: Some(zone@),
                    from_date: crate::zone::ymd_text(today.year, today.month, today.day),
                    until_date: None,
                    except_on: Seq::empty(),
                },
            ));
        },
    }
}

} // verus!
