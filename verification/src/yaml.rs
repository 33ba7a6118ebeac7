//! A YAML document as plain values: the tree the definitions, work orders and
//! task files are read from. Mappings keep the order in which keys were written.
use vstd::prelude::*;
use crate::text::trim_spec;

verus! {

/// One YAML value.
pub enum Yaml {
    Null,
    Bool(bool),
    /// An integer (the range of `i64` and of `u64` both fit).
    Int(i128),
    /// Any other number, as written.
    Float(String),
    Str(String),
    List(Vec<Yaml>),
    /// Key–value pairs in written order; keys are distinct.
    Mapping(Vec<(Yaml, Yaml)>),
}

/// The mathematical value of a YAML document.
pub enum YamlV {
    Null,
    Bool(bool),
    Int(int),
    Float(Seq<char>),
    Str(Seq<char>),
    List(Seq<YamlV>),
    Mapping(Seq<(YamlV, YamlV)>),
}

/// The value a `Yaml` stands for.
pub open spec fn yaml_view(y: Yaml) -> YamlV
    decreases y,
{
    match y {
        Yaml::Null => YamlV::Null,
        Yaml::Bool(b) => YamlV::Bool(b),
        Yaml::Int(n) => YamlV::Int(n as int),
        Yaml::Float(t) => YamlV::Float(t@),
        Yaml::Str(s) => YamlV::Str(s@),
        Yaml::List(items) => YamlV::List(list_view(items@)),
        Yaml::Mapping(entries) => YamlV::Mapping(entries_view(entries@)),
    }
}

/// The values items stand for.
pub open spec fn list_view(items: Seq<Yaml>) -> Seq<YamlV>
    decreases items,
{
    if items.len() == 0 {
        Seq::empty()
    } else {
        seq![yaml_view(items[0])] + list_view(items.subrange(1, items.len() as int))
    }
}

/// The key–value pairs entries stand for.
pub open spec fn entries_view(entries: Seq<(Yaml, Yaml)>) -> Seq<(YamlV, YamlV)>
    decreases entries,
{
    if entries.len() == 0 {
        Seq::empty()
    } else {
        seq![(yaml_view(entries[0].0), yaml_view(entries[0].1))] + entries_view(
            entries.subrange(1, entries.len() as int),
        )
    }
}

impl View for Yaml {
    type V = YamlV;

    open spec fn view(&self) -> YamlV {
        yaml_view(*self)
    }
}

/// The key `k` is the string `key`.
pub open spec fn is_key(k: YamlV, key: Seq<char>) -> bool {
    k matches YamlV::Str(s) && s == key
}

/// The value under the first entry whose key is the string `key`.
pub open spec fn lookup(entries: Seq<(YamlV, YamlV)>, key: Seq<char>) -> Option<YamlV>
    decreases entries.len(),
{
    if entries.len() == 0 {
        None
    } else if is_key(entries[0].0, key) {
        Some(entries[0].1)
    } else {
        lookup(entries.drop_first(), key)
    }
}

/// `Value::get(key)`: the value under `key` in a mapping.
pub open spec fn get_spec(v: YamlV, key: Seq<char>) -> Option<YamlV> {
    match v {
        YamlV::Mapping(m) => lookup(m, key),
        _ => None,
    }
}

/// The text of a string value.
pub open spec fn str_spec(v: Option<YamlV>) -> Option<Seq<char>> {
    match v {
        Some(YamlV::Str(s)) => Some(s),
        _ => None,
    }
}

/// The string under `key`, trimmed; empty when missing or not a string.
pub open spec fn text_spec(v: YamlV, key: Seq<char>) -> Seq<char> {
    trim_spec(
        match str_spec(get_spec(v, key)) {
            Some(s) => s,
            None => Seq::empty(),
        },
    )
}

/// The items of a sequence under `key`.
pub open spec fn seq_spec(v: YamlV, key: Seq<char>) -> Option<Seq<YamlV>> {
    match get_spec(v, key) {
        Some(YamlV::List(items)) => Some(items),
        _ => None,
    }
}

/// The boolean under `key`.
pub open spec fn bool_spec(v: YamlV, key: Seq<char>) -> Option<bool> {
    match get_spec(v, key) {
        Some(YamlV::Bool(b)) => Some(b),
        _ => None,
    }
}

/// The non-negative integer under `key` that fits in `u64`.
pub open spec fn u64_spec(v: YamlV, key: Seq<char>) -> Option<u64> {
    match get_spec(v, key) {
        Some(YamlV::Int(n)) => if 0 <= n <= u64::MAX {
            Some(n as u64)
        } else {
            None
        },
        _ => None,
    }
}

/// The string keys of a mapping, in written order (other keys skipped).
pub open spec fn str_keys(entries: Seq<(YamlV, YamlV)>) -> Seq<Seq<char>>
    decreases entries.len(),
{
    if entries.len() == 0 {
        Seq::empty()
    } else {
        let rest = str_keys(entries.drop_first());
        match entries[0].0 {
            YamlV::Str(s) => seq![s] + rest,
            _ => rest,
        }
    }
}

/// The view of a list is taken item by item.
pub proof fn lemma_list_view(items: Seq<Yaml>)
    ensures
        list_view(items).len() == items.len(),
        forall|i: int| 0 <= i < items.len() ==> #[trigger] list_view(items)[i] == yaml_view(items[i]),
    decreases items.len(),
{
    if items.len() > 0 {
        lemma_list_view(items.subrange(1, items.len() as int));
        assert forall|i: int| 0 <= i < items.len() implies #[trigger] list_view(items)[i] == yaml_view(items[i]) by {
            if i > 0 {
                assert(items.subrange(1, items.len() as int)[i - 1] == items[i]);
            }
        }
    }
}

/// The view of entries is taken pair by pair.
pub proof fn lemma_entries_view(entries: Seq<(Yaml, Yaml)>)
    ensures
        entries_view(entries).len() == entries.len(),
        forall|i: int| 0 <= i < entries.len() ==> #[trigger] entries_view(entries)[i] == (yaml_view(entries[i].0), yaml_view(entries[i].1)),
    decreases entries.len(),
{
    if entries.len() > 0 {
        lemma_entries_view(entries.subrange(1, entries.len() as int));
        assert forall|i: int| 0 <= i < entries.len() implies #[trigger] entries_view(entries)[i] == (yaml_view(entries[i].0), yaml_view(entries[i].1)) by {
            if i > 0 {
                assert(entries.subrange(1, entries.len() as int)[i - 1] == entries[i]);
            }
        }
    }
}

/// The lookup finds the first entry whose key is the string `key`.
pub proof fn lemma_lookup_at(entries: Seq<(YamlV, YamlV)>, key: Seq<char>, j: int)
    requires
        0 <= j < entries.len(),
        is_key(entries[j].0, key),
        forall|i: int| 0 <= i < j ==> !is_key(#[trigger] entries[i].0, key),
    ensures
        lookup(entries, key) == Some(entries[j].1),
    decreases j,
{
    if j > 0 {
        assert(!is_key(entries[0].0, key));
        lemma_lookup_at(entries.drop_first(), key, j - 1);
    }
}

/// Whether two texts are equal.
pub fn same(a: &str, b: &str) -> (r: bool)
    ensures
        r == (a@ == b@),
{
    let v = crate::text::chars_of(a);
    let w = crate::text::chars_of(b);
    if v.len() != w.len() {
        return false;
    }
    let mut i: usize = 0;
    while i < v.len()
        invariant
            v@.len() == w@.len(),
            i <= v@.len(),
            v@ == a@,
            w@ == b@,
            forall|k: int| 0 <= k < i ==> v@[k] == w@[k],
        decreases v@.len() - i,
    {
        if v[i] != w[i] {
            return false;
        }
        i = i + 1;
    }
    assert(v@ =~= w@);
    true
}

impl Yaml {
    /// Whether this value is the string `key`.
    pub fn is_key(&self, key: &str) -> (r: bool)
        ensures
            r == is_key(self@, key@),
    {
        match self {
            Yaml::Str(s) => same(s.as_str(), key),
            _ => false,
        }
    }

    /// The value under `key` in a mapping (`Value::get`).
    #[verifier::loop_isolation(false)]
    pub fn get(&self, key: &str) -> (r: Option<&Yaml>)
        ensures
            match get_spec(self@, key@) {
                Some(x) => r is Some && r->0@ == x,
                None => r is None,
            },
    {
        match self {
            Yaml::Mapping(entries) => {
                let ghost all = entries@;
                let mut i: usize = 0;
                assert(all.subrange(0, all.len() as int) =~= all);
                while i < entries.len()
                    invariant
                        i <= all.len(),
                        all == entries@,
                        lookup(entries_view(all), key@) == lookup(entries_view(all.subrange(i as int, all.len() as int)), key@),
                    decreases all.len() - i,
                {
                    let ghost here = all.subrange(i as int, all.len() as int);
                    proof {
                        assert(here.subrange(1, here.len() as int) =~= all.subrange(i + 1, all.len() as int));
                        assert(here[0] == entries@[i as int]);
                        assert(entries_view(here).drop_first() =~= entries_view(all.subrange(i + 1, all.len() as int)));
                    }
                    if entries[i].0.is_key(key) {
                        return Some(&entries[i].1);
                    }
                    i = i + 1;
                }
                assert(all.subrange(i as int, all.len() as int) =~= Seq::<(Yaml, Yaml)>::empty());
                None
            },
            _ => None,
        }
    }

    /// The text of a string value (`Value::as_str`).
    pub fn as_str(&self) -> (r: Option<&String>)
        ensures
            match self@ {
                YamlV::Str(s) => r is Some && r->0@ == s,
                _ => r is None,
            },
    {
        match self {
            Yaml::Str(s) => Some(s),
            _ => None,
        }
    }

    /// The items of a sequence (`Value::as_sequence`).
    pub fn as_sequence(&self) -> (r: Option<&Vec<Yaml>>)
        ensures
            match self@ {
                YamlV::List(items) => r is Some && list_view(r->0@) == items,
                _ => r is None,
            },
    {
        match self {
            Yaml::List(items) => Some(items),
            _ => None,
        }
    }

    /// The entries of a mapping (`Value::as_mapping`).
    pub fn as_mapping(&self) -> (r: Option<&Vec<(Yaml, Yaml)>>)
        ensures
            match self@ {
                YamlV::Mapping(entries) => r is Some && entries_view(r->0@) == entries,
                _ => r is None,
            },
    {
        match self {
            Yaml::Mapping(entries) => Some(entries),
            _ => None,
        }
    }

    /// A boolean value (`Value::as_bool`).
    pub fn as_bool(&self) -> (r: Option<bool>)
        ensures
            match self@ {
                YamlV::Bool(b) => r == Some(b),
                _ => r is None,
            },
    {
        match self {
            Yaml::Bool(b) => Some(*b),
            _ => None,
        }
    }

    /// A non-negative integer that fits in `u64` (`Value::as_u64`).
    pub fn as_u64(&self) -> (r: Option<u64>)
        ensures
            match self@ {
                YamlV::Int(n) => if 0 <= n <= u64::MAX {
                    r == Some(n as u64)
                } else {
                    r is None
                },
                _ => r is None,
            },
    {
        match self {
            Yaml::Int(n) => if 0 <= *n && *n <= u64::MAX as i128 {
                Some(*n as u64)
            } else {
                None
            },
            _ => None,
        }
    }

    /// A copy of this value.
    #[verifier::loop_isolation(false)]
    pub fn copy(&self) -> (r: Yaml)
        ensures
            r@ == self@,
        decreases *self,
    {
        match self {
            Yaml::Null => Yaml::Null,
            Yaml::Bool(b) => Yaml::Bool(*b),
            Yaml::Int(n) => Yaml::Int(*n),
            Yaml::Float(t) => Yaml::Float(t.clone()),
            Yaml::Str(s) => Yaml::Str(s.clone()),
            Yaml::List(items) => {
                let mut out: Vec<Yaml> = Vec::new();
                let mut i: usize = 0;
                proof {
                    lemma_list_view(items@);
                }
                while i < items.len()
                    invariant
                        i <= items@.len(),
                        out@.len() == i,
                        forall|k: int| 0 <= k < i ==> yaml_view(#[trigger] out@[k]) == yaml_view(items@[k]),
                    decreases items@.len() - i,
                {
                    proof {
                        assert(decreases_to!(*self => *items));
                        assert(decreases_to!(*items => items@));
                        assert(decreases_to!(items@ => items@[i as int]));
                    }
                    let item = items[i].copy();
                    out.push(item);
                    i = i + 1;
                }
                proof {
                    lemma_list_view(out@);
                    assert forall|k: int| 0 <= k < items@.len() implies list_view(out@)[k] == list_view(items@)[k] by {
                        assert(yaml_view(out@[k]) == yaml_view(items@[k]));
                    }
                    assert(list_view(out@) =~= list_view(items@));
                }
                Yaml::List(out)
            },
            Yaml::Mapping(entries) => {
                let mut out: Vec<(Yaml, Yaml)> = Vec::new();
                let mut i: usize = 0;
                proof {
                    lemma_entries_view(entries@);
                }
                while i < entries.len()
                    invariant
                        i <= entries@.len(),
                        out@.len() == i,
                        forall|k: int| 0 <= k < i ==> yaml_view((#[trigger] out@[k]).0) == yaml_view(entries@[k].0) && yaml_view(out@[k].1) == yaml_view(entries@[k].1),
                    decreases entries@.len() - i,
                {
                    proof {
                        assert(decreases_to!(*self => *entries));
                        assert(decreases_to!(*entries => entries@));
                        assert(decreases_to!(entries@ => entries@[i as int]));
                        assert(decreases_to!(entries@[i as int] => entries@[i as int].0));
                        assert(decreases_to!(entries@[i as int] => entries@[i as int].1));
                    }
                    let key = entries[i].0.copy();
                    let value = entries[i].1.copy();
                    out.push((key, value));
                    i = i + 1;
                }
                proof {
                    lemma_entries_view(out@);
                    assert forall|k: int| 0 <= k < entries@.len() implies entries_view(out@)[k] == entries_view(entries@)[k] by {
                        assert(yaml_view(out@[k].0) == yaml_view(entries@[k].0));
                    }
                    assert(entries_view(out@) =~= entries_view(entries@));
                }
                Yaml::Mapping(out)
            },
        }
    }
}

/// The string under `key`, trimmed; empty when missing or not a string.
pub fn text_of(v: &Yaml, key: &str) -> (r: String)
    ensures
        r@ == text_spec(v@, key@),
{
    match v.get(key) {
        Some(item) => match item.as_str() {
            Some(s) => crate::text::trim(s.as_str()),
            None => {
                assert(Seq::<char>::empty() =~= trim_spec(Seq::<char>::empty()));
                String::new()
            },
        },
        None => {
            assert(Seq::<char>::empty() =~= trim_spec(Seq::<char>::empty()));
            String::new()
        },
    }
}

/// The string keys of a mapping, in written order.
pub fn string_keys(entries: &Vec<(Yaml, Yaml)>) -> (r: Vec<String>)
    ensures
        crate::text::views(r@) == str_keys(entries_view(entries@)),
{
    let mut out: Vec<String> = Vec::new();
    let mut i: usize = 0;
    assert(entries@.subrange(0, entries@.len() as int) =~= entries@);
    assert(crate::text::views(out@) =~= Seq::<Seq<char>>::empty());
    while i < entries.len()
        invariant
            i <= entries@.len(),
            str_keys(entries_view(entries@)) == crate::text::views(out@) + str_keys(entries_view(entries@.subrange(i as int, entries@.len() as int))),
        decreases entries@.len() - i,
    {
        let ghost here = entries@.subrange(i as int, entries@.len() as int);
        let ghost rest = entries@.subrange(i as int + 1, entries@.len() as int);
        let ghost before = out@;
        proof {
            assert(here.subrange(1, here.len() as int) =~= rest);
            assert(entries_view(here).drop_first() =~= entries_view(rest));
            assert(here[0] == entries@[i as int]);
            assert(entries_view(here)[0].0 == yaml_view(entries@[i as int].0));
        }
        match &entries[i].0 {
            Yaml::Str(s) => {
                out.push(s.clone());
                proof {
                    assert(crate::text::views(out@) =~= crate::text::views(before) + seq![s@]);
                    assert(crate::text::views(before) + (seq![s@] + str_keys(entries_view(rest))) =~= crate::text::views(out@) + str_keys(entries_view(rest)));
                }
            },
            _ => {},
        }
        i = i + 1;
    }
    assert(entries@.subrange(entries@.len() as int, entries@.len() as int) =~= Seq::<(Yaml, Yaml)>::empty());
    assert(crate::text::views(out@) + Seq::<Seq<char>>::empty() =~= crate::text::views(out@));
    out
}


/// The entries with `value` under `key`: the first entry whose key is the
/// string `key` keeps its place and takes the value; with no such entry, the
/// pair goes at the end (the insertion of an ordered map).
pub open spec fn set_entry(entries: Seq<(YamlV, YamlV)>, key: Seq<char>, value: YamlV) -> Seq<(YamlV, YamlV)>
    decreases entries.len(),
{
    if entries.len() == 0 {
        seq![(YamlV::Str(key), value)]
    } else if is_key(entries[0].0, key) {
        seq![(entries[0].0, value)] + entries.drop_first()
    } else {
        seq![entries[0]] + set_entry(entries.drop_first(), key, value)
    }
}

/// The entries of a mapping value; none for any other value.
pub open spec fn entries_of(v: YamlV) -> Seq<(YamlV, YamlV)> {
    match v {
        YamlV::Mapping(entries) => entries,
        _ => Seq::empty(),
    }
}

/// The entries with `value` put under `key`.
pub fn insert_entry(entries: &Vec<(Yaml, Yaml)>, key: &str, value: Yaml) -> (r: Vec<(Yaml, Yaml)>)
    ensures
        entries_view(r@) == set_entry(entries_view(entries@), key@, value@),
{
    let ghost all = entries_view(entries@);
    proof {
        lemma_entries_view(entries@);
    }
    let mut out: Vec<(Yaml, Yaml)> = Vec::new();
    let mut i: usize = 0;
    let mut placed = false;
    let mut pending: Option<Yaml> = Some(value);
    assert(all.subrange(0, all.len() as int) =~= all);
    assert(entries_view(out@) =~= Seq::<(YamlV, YamlV)>::empty());
    while i < entries.len()
        invariant
            i <= entries@.len(),
            all == entries_view(entries@),
            all.len() == entries@.len(),
            forall|k: int| 0 <= k < entries@.len() ==> #[trigger] all[k] == (entries@[k].0@, entries@[k].1@),
            placed <==> pending is None,
            !placed ==> pending->0@ == value@,
            !placed ==> set_entry(all, key@, value@) == entries_view(out@) + set_entry(all.subrange(i as int, all.len() as int), key@, value@),
            placed ==> set_entry(all, key@, value@) == entries_view(out@) + all.subrange(i as int, all.len() as int),
        decreases entries@.len() - i,
    {
        let ghost here = all.subrange(i as int, all.len() as int);
        let ghost before = out@;
        proof {
            assert(here.drop_first() =~= all.subrange(i + 1, all.len() as int));
            assert(here[0] == all[i as int]);
            lemma_entries_view(before);
        }
        let k = entries[i].0.copy();
        if !placed && entries[i].0.is_key(key) {
            let v = match pending {
                Some(v) => v,
                None => Yaml::Null,
            };
            pending = None;
            placed = true;
            let ghost pair = (k@, v@);
            out.push((k, v));
            proof {
                lemma_entries_view(out@);
                assert(entries_view(out@) =~= entries_view(before).push(pair));
                assert(entries_view(before) + (seq![pair] + here.drop_first()) =~= entries_view(out@) + all.subrange(i + 1, all.len() as int));
            }
        } else {
            let v = entries[i].1.copy();
            let ghost pair = (k@, v@);
            out.push((k, v));
            proof {
                lemma_entries_view(out@);
                assert(entries_view(out@) =~= entries_view(before).push(pair));
                assert(pair == here[0]);
                if !placed {
                    assert(entries_view(before) + (seq![pair] + set_entry(here.drop_first(), key@, value@)) =~= entries_view(out@) + set_entry(all.subrange(i + 1, all.len() as int), key@, value@));
                } else {
                    assert(entries_view(before) + here =~= entries_view(out@) + all.subrange(i + 1, all.len() as int));
                }
            }
        }
        i = i + 1;
    }
    if !placed {
        let v = match pending {
            Some(v) => v,
            None => Yaml::Null,
        };
        let ghost before = out@;
        let ghost pair = (YamlV::Str(key@), v@);
        out.push((Yaml::Str(String::from_str(key)), v));
        proof {
            lemma_entries_view(before);
            lemma_entries_view(out@);
            assert(all.subrange(i as int, all.len() as int) =~= Seq::<(YamlV, YamlV)>::empty());
            assert(entries_view(out@) =~= entries_view(before).push(pair));
            assert(entries_view(before) + seq![pair] =~= entries_view(out@));
        }
    } else {
        assert(all.subrange(i as int, all.len() as int) =~= Seq::<(YamlV, YamlV)>::empty());
        assert(entries_view(out@) + Seq::<(YamlV, YamlV)>::empty() =~= entries_view(out@));
    }
    out
}

}
