//! Work orders and work records: the ledger of one run of a workflow.
//!
//! A work order is the cover of the ledger: which workflow it follows, under
//! which id and since when. Its records are the pages, written only at the end
//! and never changed: ids do not repeat, page numbers run from 1 without gaps,
//! time does not run backwards, and each record names its order and its step.
use vstd::prelude::*;
use crate::ids::is_id_spec;
use crate::text::{decimal_spec, join_spec, text_less, views};
use crate::yaml::{Yaml, YamlV, bool_spec, entries_view, list_view, lookup, seq_spec, text_spec, u64_spec};

verus! {

/// One record of the ledger: when, at which step, one sentence, passed or not.
pub struct WorkRecord {
    /// Its id, given by the one who appends it; unique in the order.
    pub id: String,
    /// Its page number, from 1 without gaps.
    pub seq: usize,
    /// When the step happened.
    pub created_at: String,
    /// The id of the order it belongs to.
    pub order_id: String,
    /// The step, by name.
    pub step: String,
    /// The id of the step.
    pub step_id: String,
    /// One sentence on what happened.
    pub description: String,
    /// Whether the step passed.
    pub is_succeeded: bool,
}

/// The mathematical value of a record.
pub struct RecordV {
    pub id: Seq<char>,
    pub seq: usize,
    pub created_at: Seq<char>,
    pub order_id: Seq<char>,
    pub step: Seq<char>,
    pub step_id: Seq<char>,
    pub description: Seq<char>,
    pub is_succeeded: bool,
}

impl View for WorkRecord {
    type V = RecordV;

    open spec fn view(&self) -> RecordV {
        RecordV {
            id: self.id@,
            seq: self.seq,
            created_at: self.created_at@,
            order_id: self.order_id@,
            step: self.step@,
            step_id: self.step_id@,
            description: self.description@,
            is_succeeded: self.is_succeeded,
        }
    }
}

/// A work order: the cover of one run, with its records inside.
pub struct WorkOrder {
    /// Its id, made by the program; never changes.
    pub id: String,
    /// Its name, unique in the workspace.
    pub name: String,
    /// One sentence of what is to be done.
    pub description: String,
    /// The id of the workflow it follows; sealed when written.
    pub workflow_id: String,
    /// When it was opened.
    pub created_at: String,
    /// Its records, appended only.
    pub records: Vec<WorkRecord>,
}

/// The mathematical value of a work order.
pub struct OrderV {
    pub id: Seq<char>,
    pub name: Seq<char>,
    pub description: Seq<char>,
    pub workflow_id: Seq<char>,
    pub created_at: Seq<char>,
    pub records: Seq<RecordV>,
}

/// The views of records.
pub open spec fn records_view(rs: Seq<WorkRecord>) -> Seq<RecordV> {
    rs.map_values(|r: WorkRecord| r@)
}

impl View for WorkOrder {
    type V = OrderV;

    open spec fn view(&self) -> OrderV {
        OrderV {
            id: self.id@,
            name: self.name@,
            description: self.description@,
            workflow_id: self.workflow_id@,
            created_at: self.created_at@,
            records: records_view(self.records@),
        }
    }
}

/// The fields a work order file may carry.
pub open spec fn order_fields() -> Seq<Seq<char>> {
    seq!["id"@, "name"@, "description"@, "workflow_id"@, "created_at"@, "records"@]
}

/// The record a YAML entry is read as: strings trimmed, a missing `seq` 0, a
/// missing `is_succeeded` false.
pub open spec fn record_of(v: YamlV) -> RecordV {
    RecordV {
        id: text_spec(v, "id"@),
        seq: match u64_spec(v, "seq"@) {
            Some(n) => n as usize,
            None => 0,
        },
        created_at: text_spec(v, "created_at"@),
        order_id: text_spec(v, "order_id"@),
        step: text_spec(v, "step"@),
        step_id: text_spec(v, "step_id"@),
        description: text_spec(v, "description"@),
        is_succeeded: match bool_spec(v, "is_succeeded"@) {
            Some(b) => b,
            None => false,
        },
    }
}

/// The order a YAML document is read as; the records are the items of a
/// `records` sequence, none when there is none.
pub open spec fn order_of(v: YamlV) -> OrderV {
    OrderV {
        id: text_spec(v, "id"@),
        name: text_spec(v, "name"@),
        description: text_spec(v, "description"@),
        workflow_id: text_spec(v, "workflow_id"@),
        created_at: text_spec(v, "created_at"@),
        records: match seq_spec(v, "records"@) {
            Some(items) => items.map_values(|i: YamlV| record_of(i)),
            None => Seq::empty(),
        },
    }
}

/// A string entry of a mapping.
pub open spec fn str_entry(key: Seq<char>, value: Seq<char>) -> (YamlV, YamlV) {
    (YamlV::Str(key), YamlV::Str(value))
}

/// The YAML a record is written as.
pub open spec fn record_yaml(r: RecordV) -> YamlV {
    YamlV::Mapping(
        seq![
            str_entry("id"@, r.id),
            (YamlV::Str("seq"@), YamlV::Int(r.seq as int)),
            str_entry("created_at"@, r.created_at),
            str_entry("order_id"@, r.order_id),
            str_entry("step"@, r.step),
            str_entry("step_id"@, r.step_id),
            str_entry("description"@, r.description),
            (YamlV::Str("is_succeeded"@), YamlV::Bool(r.is_succeeded)),
        ],
    )
}

/// The YAML an order is written as.
pub open spec fn order_yaml(o: OrderV) -> YamlV {
    YamlV::Mapping(
        seq![
            str_entry("id"@, o.id),
            str_entry("name"@, o.name),
            str_entry("description"@, o.description),
            str_entry("workflow_id"@, o.workflow_id),
            str_entry("created_at"@, o.created_at),
            (YamlV::Str("records"@), YamlV::List(o.records.map_values(|r: RecordV| record_yaml(r)))),
        ],
    )
}

/// A text with no white space at either end.
pub open spec fn trimmed(s: Seq<char>) -> bool {
    crate::text::trim_spec(s) == s
}

/// Every text of a record is trimmed.
pub open spec fn record_trimmed(r: RecordV) -> bool {
    &&& trimmed(r.id)
    &&& trimmed(r.created_at)
    &&& trimmed(r.order_id)
    &&& trimmed(r.step)
    &&& trimmed(r.step_id)
    &&& trimmed(r.description)
}

/// Every text of an order and of its records is trimmed.
pub open spec fn order_trimmed(o: OrderV) -> bool {
    &&& trimmed(o.id)
    &&& trimmed(o.name)
    &&& trimmed(o.description)
    &&& trimmed(o.workflow_id)
    &&& trimmed(o.created_at)
    &&& forall|k: int| 0 <= k < o.records.len() ==> record_trimmed(#[trigger] o.records[k])
}

/// A string under a key of its own.
fn entry(key: &str, value: &String) -> (r: (Yaml, Yaml))
    ensures
        r.0@ == YamlV::Str(key@),
        r.1@ == YamlV::Str(value@),
{
    (Yaml::Str(String::from_str(key)), Yaml::Str(value.clone()))
}

impl WorkRecord {
    /// Reads a record from its YAML entry (no check; see `validate_records`).
    pub fn of(value: &Yaml) -> (r: WorkRecord)
        ensures
            r@ == record_of(value@),
    {
        let seq: usize = match value.get("seq") {
            Some(v) => match v.as_u64() {
                Some(n) => n as usize,
                None => 0,
            },
            None => 0,
        };
        let is_succeeded = match value.get("is_succeeded") {
            Some(v) => match v.as_bool() {
                Some(b) => b,
                None => false,
            },
            None => false,
        };
        WorkRecord {
            id: crate::yaml::text_of(value, "id"),
            seq,
            created_at: crate::yaml::text_of(value, "created_at"),
            order_id: crate::yaml::text_of(value, "order_id"),
            step: crate::yaml::text_of(value, "step"),
            step_id: crate::yaml::text_of(value, "step_id"),
            description: crate::yaml::text_of(value, "description"),
            is_succeeded,
        }
    }

    /// The YAML this record is written as.
    pub fn to_yaml(&self) -> (r: Yaml)
        ensures
            r@ == record_yaml(self@),
    {
        let out = vec![
            entry("id", &self.id),
            (Yaml::Str(String::from_str("seq")), Yaml::Int(self.seq as i128)),
            entry("created_at", &self.created_at),
            entry("order_id", &self.order_id),
            entry("step", &self.step),
            entry("step_id", &self.step_id),
            entry("description", &self.description),
            (Yaml::Str(String::from_str("is_succeeded")), Yaml::Bool(self.is_succeeded)),
        ];
        proof {
            crate::yaml::lemma_entries_view(out@);
            assert(entries_view(out@) =~= match record_yaml(self@) {
                YamlV::Mapping(m) => m,
                _ => Seq::empty(),
            });
        }
        Yaml::Mapping(out)
    }

    /// A copy of this record.
    pub fn copy(&self) -> (r: WorkRecord)
        ensures
            r@ == self@,
    {
        WorkRecord {
            id: self.id.clone(),
            seq: self.seq,
            created_at: self.created_at.clone(),
            order_id: self.order_id.clone(),
            step: self.step.clone(),
            step_id: self.step_id.clone(),
            description: self.description.clone(),
            is_succeeded: self.is_succeeded,
        }
    }
}

impl WorkOrder {
    /// Reads an order from its file's YAML (no check; see `validate_yaml`).
    pub fn of(payload: &Yaml) -> (r: WorkOrder)
        ensures
            r@ == order_of(payload@),
    {
        let mut records: Vec<WorkRecord> = Vec::new();
        match payload.get("records") {
            Some(v) => match v.as_sequence() {
                Some(items) => {
                    proof {
                        crate::yaml::lemma_list_view(items@);
                    }
                    let mut i: usize = 0;
                    while i < items.len()
                        invariant
                            i <= items@.len(),
                            list_view(items@).len() == items@.len(),
                            forall|k: int| 0 <= k < items@.len() ==> #[trigger] list_view(items@)[k] == items@[k]@,
                            records_view(records@) =~= list_view(items@).take(i as int).map_values(|x: YamlV| record_of(x)),
                        decreases items@.len() - i,
                    {
                        let ghost before = records@;
                        let r = WorkRecord::of(&items[i]);
                        records.push(r);
                        proof {
                            assert(records_view(records@) =~= records_view(before).push(r@));
                            assert(list_view(items@).take(i + 1) =~= list_view(items@).take(i as int).push(items@[i as int]@));
                        }
                        i = i + 1;
                    }
                    assert(list_view(items@).take(i as int) =~= list_view(items@));
                },
                None => {},
            },
            None => {},
        }
        assert(records_view(records@) =~= order_of(payload@).records);
        WorkOrder {
            id: crate::yaml::text_of(payload, "id"),
            name: crate::yaml::text_of(payload, "name"),
            description: crate::yaml::text_of(payload, "description"),
            workflow_id: crate::yaml::text_of(payload, "workflow_id"),
            created_at: crate::yaml::text_of(payload, "created_at"),
            records,
        }
    }

    /// The YAML this order is written as.
    pub fn to_yaml(&self) -> (r: Yaml)
        ensures
            r@ == order_yaml(self@),
    {
        let mut items: Vec<Yaml> = Vec::new();
        let mut i: usize = 0;
        while i < self.records.len()
            invariant
                i <= self.records@.len(),
                list_view(items@) =~= records_view(self.records@).take(i as int).map_values(|r: RecordV| record_yaml(r)),
            decreases self.records@.len() - i,
        {
            let ghost before = items@;
            let y = self.records[i].to_yaml();
            items.push(y);
            proof {
                crate::yaml::lemma_list_view(before);
                crate::yaml::lemma_list_view(items@);
                assert(list_view(items@) =~= list_view(before).push(y@));
            }
            i = i + 1;
        }
        assert(records_view(self.records@).take(i as int) =~= records_view(self.records@));
        let out = vec![
            entry("id", &self.id),
            entry("name", &self.name),
            entry("description", &self.description),
            entry("workflow_id", &self.workflow_id),
            entry("created_at", &self.created_at),
            (Yaml::Str(String::from_str("records")), Yaml::List(items)),
        ];
        proof {
            crate::yaml::lemma_entries_view(out@);
            assert(entries_view(out@) =~= match order_yaml(self@) {
                YamlV::Mapping(m) => m,
                _ => Seq::empty(),
            });
        }
        Yaml::Mapping(out)
    }

    /// A copy of this order.
    pub fn copy(&self) -> (r: WorkOrder)
        ensures
            r@ == self@,
    {
        let mut records: Vec<WorkRecord> = Vec::new();
        let mut i: usize = 0;
        while i < self.records.len()
            invariant
                i <= self.records@.len(),
                records_view(records@) =~= records_view(self.records@).take(i as int),
            decreases self.records@.len() - i,
        {
            let ghost before = records@;
            let r = self.records[i].copy();
            records.push(r);
            proof {
                assert(records_view(records@) =~= records_view(before).push(r@));
                assert(records_view(self.records@).take(i + 1) =~= records_view(self.records@).take(i as int).push(self.records@[i as int]@));
            }
            i = i + 1;
        }
        assert(records_view(self.records@).take(i as int) =~= records_view(self.records@));
        WorkOrder {
            id: self.id.clone(),
            name: self.name.clone(),
            description: self.description.clone(),
            workflow_id: self.workflow_id.clone(),
            created_at: self.created_at.clone(),
            records,
        }
    }
}


/// Reading back what a record is written as gives the record again, when its
/// texts carry no white space at either end (reading trims them).
pub proof fn lemma_record_round_trip(r: RecordV)
    requires
        record_trimmed(r),
    ensures
        record_of(record_yaml(r)) == r,
{
    reveal_strlit("id");
    reveal_strlit("seq");
    reveal_strlit("created_at");
    reveal_strlit("order_id");
    reveal_strlit("step");
    reveal_strlit("step_id");
    reveal_strlit("description");
    reveal_strlit("is_succeeded");
    let m = match record_yaml(r) {
        YamlV::Mapping(m) => m,
        _ => Seq::empty(),
    };
    let keys = seq!["id"@, "seq"@, "created_at"@, "order_id"@, "step"@, "step_id"@, "description"@, "is_succeeded"@];
    assert forall|i: int| 0 <= i < 8 implies #[trigger] m[i].0 == YamlV::Str(keys[i]) by {}
    assert forall|i: int, j: int| 0 <= i < j < 8 implies #[trigger] keys[i] != #[trigger] keys[j] by {
        if keys[i].len() == keys[j].len() {
            assert(keys[i][0] != keys[j][0] || keys[i][1] != keys[j][1] || keys[i][4] != keys[j][4]);
        }
    }
    assert forall|j: int| 0 <= j < 8 implies lookup(m, #[trigger] keys[j]) == Some(m[j].1) by {
        crate::yaml::lemma_lookup_at(m, keys[j], j);
    }
    assert(lookup(m, keys[1]) == Some(m[1].1));
}

/// Reading back what an order is written as gives the order again, when its
/// texts and those of its records carry no white space at either end.
pub proof fn lemma_order_round_trip(o: OrderV)
    requires
        order_trimmed(o),
    ensures
        order_of(order_yaml(o)) == o,
{
    reveal_strlit("id");
    reveal_strlit("name");
    reveal_strlit("description");
    reveal_strlit("workflow_id");
    reveal_strlit("created_at");
    reveal_strlit("records");
    let m = match order_yaml(o) {
        YamlV::Mapping(m) => m,
        _ => Seq::empty(),
    };
    let keys = seq!["id"@, "name"@, "description"@, "workflow_id"@, "created_at"@, "records"@];
    assert forall|i: int| 0 <= i < 6 implies #[trigger] m[i].0 == YamlV::Str(keys[i]) by {}
    assert forall|i: int, j: int| 0 <= i < j < 6 implies #[trigger] keys[i] != #[trigger] keys[j] by {
        if keys[i].len() == keys[j].len() {
            assert(keys[i][0] != keys[j][0]);
        }
    }
    assert forall|j: int| 0 <= j < 6 implies lookup(m, #[trigger] keys[j]) == Some(m[j].1) by {
        crate::yaml::lemma_lookup_at(m, keys[j], j);
    }
    let written = o.records.map_values(|r: RecordV| record_yaml(r));
    assert forall|k: int| 0 <= k < o.records.len() implies #[trigger] record_of(written[k]) == o.records[k] by {
        lemma_record_round_trip(o.records[k]);
    }
    assert(lookup(m, keys[5]) == Some(m[5].1));
    assert(written.map_values(|i: YamlV| record_of(i)) =~= o.records);
}


/// How the record at index `k` is named in a message.
pub open spec fn spot_spec(where_: Seq<char>, k: int) -> Seq<char> {
    where_ + "第 "@ + decimal_spec((k + 1) as nat) + " 笔"@
}

/// An earlier record of `rs` carries the id of the record at `k`.
pub open spec fn id_taken(rs: Seq<RecordV>, k: int) -> bool {
    exists|j: int| 0 <= j < k && #[trigger] rs[j].id == rs[k].id
}

/// What is wrong with the record at index `k`, the records before it being
/// sound: the first broken rule of the ledger, in the order they are checked.
pub open spec fn record_fault(rs: Seq<RecordV>, k: int, order_id: Seq<char>, where_: Seq<char>) -> Option<Seq<char>> {
    let r = rs[k];
    let spot = spot_spec(where_, k);
    if !is_id_spec(r.id) {
        Some(spot + "少了 id，或 id 不是 UUID"@)
    } else if id_taken(rs, k) {
        Some(spot + "的 id 撞号："@ + r.id + "（账被复制）"@)
    } else if r.seq != k + 1 {
        Some(spot + "的 seq 应当是从 1 起不跳号的页码，实得 "@ + decimal_spec(r.seq as nat))
    } else if r.created_at.len() == 0 {
        Some(spot + "少了 created_at"@)
    } else if k > 0 && text_less(r.created_at, rs[k - 1].created_at) {
        Some(spot + "的时刻早于上一笔（账本时间倒流）"@)
    } else if r.order_id != order_id {
        Some(spot + "的 order_id 与工单对不上"@)
    } else if r.step.len() == 0 {
        Some(spot + "少了 step（按名指认的一站）"@)
    } else if !is_id_spec(r.step_id) {
        Some(spot + "少了 step_id，或 step_id 不是 UUID"@)
    } else {
        None
    }
}

/// The record at `k` keeps every rule of the ledger.
pub open spec fn record_sound(rs: Seq<RecordV>, k: int, order_id: Seq<char>) -> bool {
    let r = rs[k];
    &&& is_id_spec(r.id)
    &&& !id_taken(rs, k)
    &&& r.seq == k + 1
    &&& r.created_at.len() > 0
    &&& (k > 0 ==> !text_less(r.created_at, rs[k - 1].created_at))
    &&& r.order_id == order_id
    &&& r.step.len() > 0
    &&& is_id_spec(r.step_id)
}

/// Every record keeps the rules of the ledger.
pub open spec fn records_sound(rs: Seq<RecordV>, order_id: Seq<char>) -> bool {
    forall|k: int| 0 <= k < rs.len() ==> #[trigger] record_sound(rs, k, order_id)
}

/// The first fault among the records from index `k` on.
pub open spec fn records_fault_from(rs: Seq<RecordV>, k: int, order_id: Seq<char>, where_: Seq<char>) -> Option<Seq<char>>
    decreases rs.len() - k,
{
    if k < 0 || k >= rs.len() {
        None
    } else {
        match record_fault(rs, k, order_id, where_) {
            Some(m) => Some(m),
            None => records_fault_from(rs, k + 1, order_id, where_),
        }
    }
}

/// The first fault among the records.
pub open spec fn records_fault(rs: Seq<RecordV>, order_id: Seq<char>, where_: Seq<char>) -> Option<Seq<char>> {
    records_fault_from(rs, 0, order_id, where_)
}

/// What is wrong with an order: its cover, then its records.
pub open spec fn order_fault(o: OrderV, where_: Seq<char>) -> Option<Seq<char>> {
    if !is_id_spec(o.id) {
        Some(where_ + "少了 id，或 id 不是 UUID"@)
    } else if o.name.len() == 0 {
        Some(where_ + "少了 name"@)
    } else if !is_id_spec(o.workflow_id) {
        Some(where_ + "少了 workflow_id，或 workflow_id 不是 UUID"@)
    } else if o.created_at.len() == 0 {
        Some(where_ + "少了 created_at"@)
    } else {
        records_fault(o.records, o.id, where_)
    }
}

/// A sound order: its cover filled in, its records keeping the rules.
pub open spec fn order_sound(o: OrderV) -> bool {
    &&& is_id_spec(o.id)
    &&& o.name.len() > 0
    &&& is_id_spec(o.workflow_id)
    &&& o.created_at.len() > 0
    &&& records_sound(o.records, o.id)
}

/// What is wrong with an order file: not a mapping, fields it may not carry,
/// then what is wrong with the order read from it.
pub open spec fn order_yaml_fault(v: YamlV, where_: Seq<char>) -> Option<Seq<char>> {
    if !(v is Mapping) {
        Some(where_ + "的顶层不是映射"@)
    } else if crate::schema::unknown_spec(v, order_fields()).len() > 0 {
        Some(
            where_ + "有不认识的字段："@ + join_spec(crate::schema::unknown_spec(v, order_fields()), "、"@)
                + "（只认 id、name、description、workflow_id、created_at、records）"@,
        )
    } else {
        order_fault(order_of(v), where_)
    }
}

/// Why a record may not be appended: its id is no UUID, or the ledger holds it.
pub open spec fn append_fault(o: OrderV, record_id: Seq<char>) -> Option<Seq<char>> {
    if !is_id_spec(record_id) {
        Some("记录的 id 得是 UUID（幂等键）"@)
    } else if exists|j: int| 0 <= j < o.records.len() && #[trigger] o.records[j].id == record_id {
        Some("这条记录已经在账上了："@ + record_id + "（视作重放）"@)
    } else {
        None
    }
}

/// The faults found from `k` on are the faults of the ledger, once the records
/// before `k` are sound.
proof fn lemma_fault_step(rs: Seq<RecordV>, k: int, order_id: Seq<char>, where_: Seq<char>)
    requires
        0 <= k < rs.len(),
        record_fault(rs, k, order_id, where_) is None,
    ensures
        records_fault_from(rs, k, order_id, where_) == records_fault_from(rs, k + 1, order_id, where_),
{
}

/// A record has no fault exactly when it is sound.
pub proof fn lemma_fault_iff_sound(rs: Seq<RecordV>, k: int, order_id: Seq<char>, where_: Seq<char>)
    requires
        0 <= k < rs.len(),
    ensures
        record_fault(rs, k, order_id, where_) is None <==> record_sound(rs, k, order_id),
{
}

/// The ledger has no fault from `k` on exactly when every record from `k` on is sound.
proof fn lemma_records_fault_from(rs: Seq<RecordV>, k: int, order_id: Seq<char>, where_: Seq<char>)
    requires
        0 <= k <= rs.len(),
    ensures
        records_fault_from(rs, k, order_id, where_) is None <==> (forall|i: int| k <= i < rs.len() ==> #[trigger] record_sound(rs, i, order_id)),
    decreases rs.len() - k,
{
    if k < rs.len() {
        lemma_records_fault_from(rs, k + 1, order_id, where_);
        lemma_fault_iff_sound(rs, k, order_id, where_);
    }
}

/// An order has no fault exactly when it is sound, whatever it is called in messages.
pub proof fn lemma_order_fault_iff_sound(o: OrderV, where_: Seq<char>)
    ensures
        order_fault(o, where_) is None <==> order_sound(o),
{
    lemma_records_fault_from(o.records, 0, o.id, where_);
}

/// A message: `head` followed by `tail`.
fn said(head: &str, tail: &str) -> (r: String)
    ensures
        r@ == head@ + tail@,
{
    crate::text::cat(head, tail)
}

/// Whether one of the first `k` records carries the id `id`.
fn seen_before(records: &Vec<WorkRecord>, k: usize, id: &str) -> (r: bool)
    requires
        k <= records@.len(),
    ensures
        r == exists|j: int| 0 <= j < k && #[trigger] records_view(records@)[j].id == id@,
{
    let mut j: usize = 0;
    while j < k
        invariant
            j <= k <= records@.len(),
            forall|i: int| 0 <= i < j ==> #[trigger] records_view(records@)[i].id != id@,
        decreases k - j,
    {
        if crate::yaml::same(records[j].id.as_str(), id) {
            assert(records_view(records@)[j as int].id == id@);
            return true;
        }
        j = j + 1;
    }
    false
}

/// Checks one record against the rules of the ledger.
fn record_check(records: &Vec<WorkRecord>, k: usize, order_id: &str, where_: &str) -> (r: Option<String>)
    requires
        k < records@.len(),
    ensures
        crate::text::opt_view(r) == record_fault(records_view(records@), k as int, order_id@, where_@),
{
    let ghost rs = records_view(records@);
    let n = records.len();
    let record = &records[k];
    let mut spot = String::from_str(where_);
    spot.append("第 ");
    spot.append(crate::text::decimal(k + 1).as_str());
    spot.append(" 笔");
    assert(spot@ == spot_spec(where_@, k as int));
    if !crate::ids::is_id(record.id.as_str()) {
        return Some(said(spot.as_str(), "少了 id，或 id 不是 UUID"));
    }
    if seen_before(records, k, record.id.as_str()) {
        let mut m = said(spot.as_str(), "的 id 撞号：");
        m.append(record.id.as_str());
        m.append("（账被复制）");
        return Some(m);
    }
    if record.seq != k + 1 {
        let mut m = said(spot.as_str(), "的 seq 应当是从 1 起不跳号的页码，实得 ");
        m.append(crate::text::decimal(record.seq).as_str());
        return Some(m);
    }
    if record.created_at.unicode_len() == 0 {
        return Some(said(spot.as_str(), "少了 created_at"));
    }
    if k > 0 && crate::text::less(record.created_at.as_str(), records[k - 1].created_at.as_str()) {
        return Some(said(spot.as_str(), "的时刻早于上一笔（账本时间倒流）"));
    }
    if !crate::yaml::same(record.order_id.as_str(), order_id) {
        return Some(said(spot.as_str(), "的 order_id 与工单对不上"));
    }
    if record.step.unicode_len() == 0 {
        return Some(said(spot.as_str(), "少了 step（按名指认的一站）"));
    }
    if !crate::ids::is_id(record.step_id.as_str()) {
        return Some(said(spot.as_str(), "少了 step_id，或 step_id 不是 UUID"));
    }
    None
}

/// Checks the records of an order: ids do not repeat,
/// page numbers run from 1 without gaps, time does not run backwards, and each
/// record names its order and a step.
pub fn validate_records(records: &Vec<WorkRecord>, order_id: &str, where_: &str) -> (r: Result<(), String>)
    ensures
        match records_fault(records_view(records@), order_id@, where_@) {
            None => r is Ok,
            Some(m) => r is Err && r->Err_0@ == m,
        },
{
    let ghost rs = records_view(records@);
    let mut i: usize = 0;
    while i < records.len()
        invariant
            i <= records@.len(),
            rs == records_view(records@),
            records_fault(rs, order_id@, where_@) == records_fault_from(rs, i as int, order_id@, where_@),
        decreases records@.len() - i,
    {
        match record_check(records, i, order_id, where_) {
            Some(m) => {
                return Err(m);
            },
            None => {
                proof {
                    lemma_fault_step(rs, i as int, order_id@, where_@);
                }
            },
        }
        i = i + 1;
    }
    Ok(())
}

/// Checks an order: its cover filled in, its records keeping the
/// rules of the ledger.
pub fn validate(order: &WorkOrder, where_: &str) -> (r: Result<(), String>)
    ensures
        match order_fault(order@, where_@) {
            None => r is Ok,
            Some(m) => r is Err && r->Err_0@ == m,
        },
{
    if !crate::ids::is_id(order.id.as_str()) {
        return Err(said(where_, "少了 id，或 id 不是 UUID"));
    }
    if order.name.unicode_len() == 0 {
        return Err(said(where_, "少了 name"));
    }
    if !crate::ids::is_id(order.workflow_id.as_str()) {
        return Err(said(where_, "少了 workflow_id，或 workflow_id 不是 UUID"));
    }
    if order.created_at.unicode_len() == 0 {
        return Err(said(where_, "少了 created_at"));
    }
    validate_records(&order.records, order.id.as_str(), where_)
}

/// Reads and checks an order file: fields it may not carry
/// are refused, then the order read from it is checked.
pub fn validate_yaml(payload: &Yaml, where_: &str) -> (r: Result<WorkOrder, String>)
    ensures
        match order_yaml_fault(payload@, where_@) {
            None => r is Ok && r->Ok_0@ == order_of(payload@),
            Some(m) => r is Err && r->Err_0@ == m,
        },
{
    if payload.as_mapping().is_none() {
        return Err(said(where_, "的顶层不是映射"));
    }
    let allowed = crate::schema::texts(&["id", "name", "description", "workflow_id", "created_at", "records"]);
    proof {
        assert(views(allowed@) =~= order_fields());
    }
    let unknown = crate::schema::unknown_fields(payload, &allowed);
    if unknown.len() > 0 {
        let mut m = said(where_, "有不认识的字段：");
        m.append(crate::text::join(&unknown, "、").as_str());
        m.append("（只认 id、name、description、workflow_id、created_at、records）");
        return Err(m);
    }
    let order = WorkOrder::of(payload);
    match validate(&order, where_) {
        Ok(()) => Ok(order),
        Err(m) => Err(m),
    }
}

/// Checks a record id before it is appended: it is the
/// appender's idempotency key, so it must be a UUID the ledger does not hold.
pub fn append_check(order: &WorkOrder, record_id: &str) -> (r: Result<(), String>)
    ensures
        match append_fault(order@, record_id@) {
            None => r is Ok,
            Some(m) => r is Err && r->Err_0@ == m,
        },
{
    if !crate::ids::is_id(record_id) {
        return Err(String::from_str("记录的 id 得是 UUID（幂等键）"));
    }
    if seen_before(&order.records, order.records.len(), record_id) {
        assert(order@.records == records_view(order.records@));
        assert(exists|j: int| 0 <= j < order@.records.len() && #[trigger] order@.records[j].id == record_id@);
        let mut m = String::from_str("这条记录已经在账上了：");
        m.append(record_id);
        m.append("（视作重放）");
        return Err(m);
    }
    Ok(())
}

}
