use vstd::prelude::*;

use std::collections::HashMap;

use crate::fields::{fields_of, first_of, lemma_first_of_at, lemma_first_of_bounds, pair_view, parse_fields};
use crate::record::{
    default_stream_names, default_stream_types, origin_color, origin_hue, text_views, type_color,
    type_hue, MavMsg, RecordView, Hue,
};

verus! {

broadcast use vstd::std_specs::hash::group_hash_axioms;

/// A row of the live table: the latest message of one producer and type.
pub struct StreamEntry {
    pub color: Hue,
    pub msg_color: Option<Hue>,
    pub sys_id: u8,
    pub comp_id: u8,
    pub name: String,
    pub fields: String,
    pub timestamp: i64,
}

impl View for StreamEntry {
    type V = RecordView;

    open spec fn view(&self) -> RecordView {
        RecordView {
            system_id: self.sys_id,
            component_id: self.comp_id,
            name: self.name@,
            fields: self.fields@,
            timestamp: self.timestamp,
        }
    }
}

/// What a log row shows of a message: everything but its capture time.
pub struct LogView {
    pub system_id: u8,
    pub component_id: u8,
    pub name: Seq<char>,
    pub fields: Seq<char>,
}

pub open spec fn log_view(r: RecordView) -> LogView {
    LogView {
        system_id: r.system_id,
        component_id: r.component_id,
        name: r.name,
        fields: r.fields,
    }
}

/// A row of the discrete log: one message, never changed.
pub struct MessageEntry {
    pub color: Hue,
    pub msg_color: Option<Hue>,
    pub sys_id: u8,
    pub comp_id: u8,
    pub name: String,
    pub fields: String,
}

impl View for MessageEntry {
    type V = LogView;

    open spec fn view(&self) -> LogView {
        LogView {
            system_id: self.sys_id,
            component_id: self.comp_id,
            name: self.name@,
            fields: self.fields@,
        }
    }
}

impl StreamEntry {
    /// Whether the row's colours are those of its producer and type.
    pub open spec fn hues_fit(&self) -> bool {
        &&& self.color == origin_hue(self.sys_id, self.comp_id)
        &&& self.msg_color == type_hue(self.name@)
    }

    pub fn parsed_fields(&self) -> (r: Vec<(&str, &str)>)
        ensures
            r@.map_values(|p: (&str, &str)| pair_view(p)) == fields_of(self.fields@),
    {
        parse_fields(self.fields.as_str())
    }

    fn duplicate(&self) -> (r: StreamEntry)
        ensures
            r == *self,
    {
        StreamEntry {
            color: self.color,
            msg_color: self.msg_color,
            sys_id: self.sys_id,
            comp_id: self.comp_id,
            name: self.name.clone(),
            fields: self.fields.clone(),
            timestamp: self.timestamp,
        }
    }
}

impl MessageEntry {
    pub open spec fn hues_fit(&self) -> bool {
        &&& self.color == origin_hue(self.sys_id, self.comp_id)
        &&& self.msg_color == type_hue(self.name@)
    }

    pub fn parsed_fields(&self) -> (r: Vec<(&str, &str)>)
        ensures
            r@.map_values(|p: (&str, &str)| pair_view(p)) == fields_of(self.fields@),
    {
        parse_fields(self.fields.as_str())
    }

    fn duplicate(&self) -> (r: MessageEntry)
        ensures
            r == *self,
    {
        MessageEntry {
            color: self.color,
            msg_color: self.msg_color,
            sys_id: self.sys_id,
            comp_id: self.comp_id,
            name: self.name.clone(),
            fields: self.fields.clone(),
        }
    }
}

/// Two records share a live row when producer and type agree.
pub open spec fn same_key(a: RecordView, b: RecordView) -> bool {
    &&& a.system_id == b.system_id
    &&& a.component_id == b.component_id
    &&& a.name == b.name
}

/// No two live rows share a key.
pub open spec fn keys_unique(live: Seq<RecordView>) -> bool {
    forall|i: int, j: int|
        0 <= i < live.len() && 0 <= j < live.len() && same_key(live[i], live[j]) ==> i == j
}

pub open spec fn not_live_named(name: Seq<char>) -> spec_fn(RecordView) -> bool {
    |e: RecordView| e.name != name
}

pub open spec fn not_log_named(name: Seq<char>) -> spec_fn(LogView) -> bool {
    |e: LogView| e.name != name
}

/// The collector as its users see it: the live rows in first-seen order, the
/// log rows in arrival order, and the types currently routed to the live table.
pub struct CollectorView {
    pub live: Seq<RecordView>,
    pub log: Seq<LogView>,
    pub live_types: Set<Seq<char>>,
}

impl CollectorView {
    /// Ingesting `r`: a live type overwrites the row of its key in place, or
    /// appends one; any other type appends a log row.
    pub open spec fn after_push(self, r: RecordView) -> CollectorView {
        if self.live_types.contains(r.name) {
            if exists|i: int| 0 <= i < self.live.len() && same_key(#[trigger] self.live[i], r) {
                let i = choose|i: int| 0 <= i < self.live.len() && same_key(#[trigger] self.live[i], r);
                CollectorView { live: self.live.update(i, r), ..self }
            } else {
                CollectorView { live: self.live.push(r), ..self }
            }
        } else {
            CollectorView { log: self.log.push(log_view(r)), ..self }
        }
    }

    /// Moving `name` out of the live table (`currently_stream`) drops its live
    /// rows; moving it into the live table drops its log rows.
    pub open spec fn after_toggle(self, name: Seq<char>, currently_stream: bool) -> CollectorView {
        if currently_stream {
            CollectorView {
                live: self.live.filter(not_live_named(name)),
                log: self.log,
                live_types: self.live_types.remove(name),
            }
        } else {
            CollectorView {
                live: self.live,
                log: self.log.filter(not_log_named(name)),
                live_types: self.live_types.insert(name),
            }
        }
    }

    /// Every live row is of a live type, and no two live rows share a key.
    pub open spec fn consistent(self) -> bool {
        &&& keys_unique(self.live)
        &&& forall|i: int| 0 <= i < self.live.len() ==> self.live_types.contains(#[trigger] self.live[i].name)
    }

    /// Ingesting the records of `rs` in order.
    pub open spec fn push_all(self, rs: Seq<RecordView>) -> CollectorView
        decreases rs.len(),
    {
        if rs.len() == 0 {
            self
        } else {
            self.push_all(rs.drop_last()).after_push(rs.last())
        }
    }

    pub open spec fn after_clear(self) -> CollectorView {
        CollectorView { live: Seq::empty(), log: Seq::empty(), live_types: self.live_types }
    }
}

/// Index key of the live row of a type id and a producer.
pub open spec fn key_of(kind: int, sys: u8, comp: u8) -> u128 {
    (kind * 65536 + sys * 256 + comp) as u128
}

pub open spec fn names_of(kinds: Seq<String>) -> Seq<Seq<char>> {
    kinds.map_values(|s: String| s@)
}

/// The types whose first entry in the classifier table is marked live.
pub open spec fn live_set(names: Seq<Seq<char>>, flags: Seq<bool>) -> Set<Seq<char>> {
    Set::new(
        |n: Seq<char>|
            match first_of(names, n) {
                Some(i) => flags[i],
                None => false,
            },
    )
}

/// Sorts incoming messages into the live table and the discrete log.
///
/// The classifier is a table of type names (`kinds`) beside their category
/// (`kind_live`), seeded with the default live types; an entry's position is
/// the type's id in the keys of `stream_index`. vstd gives hash tables a key
/// model for integer keys only, so names are looked up in the table and the
/// index is keyed by integers.
pub struct Collector {
    stream: Vec<StreamEntry>,
    stream_kinds: Vec<usize>,
    stream_index: HashMap<u128, usize>,
    messages: Vec<MessageEntry>,
    kinds: Vec<String>,
    kind_live: Vec<bool>,
}

impl View for Collector {
    type V = CollectorView;

    closed spec fn view(&self) -> CollectorView {
        CollectorView {
            live: self.stream@.map_values(|e: StreamEntry| e@),
            log: self.messages@.map_values(|e: MessageEntry| e@),
            live_types: live_set(names_of(self.kinds@), self.kind_live@),
        }
    }
}

proof fn lemma_key_of_injective(k1: int, s1: u8, c1: u8, k2: int, s2: u8, c2: u8)
    requires
        0 <= k1 <= usize::MAX,
        0 <= k2 <= usize::MAX,
        key_of(k1, s1, c1) == key_of(k2, s2, c2),
    ensures
        k1 == k2 && s1 == s2 && c1 == c2,
{
    let a = k1 * 65536 + s1 * 256 + c1;
    let b = k2 * 65536 + s2 * 256 + c2;
    assert(0 <= a < u128::MAX) by (nonlinear_arith)
        requires 0 <= k1 <= usize::MAX, a == k1 * 65536 + s1 * 256 + c1, 0 <= s1 < 256, 0 <= c1 < 256;
    assert(0 <= b < u128::MAX) by (nonlinear_arith)
        requires 0 <= k2 <= usize::MAX, b == k2 * 65536 + s2 * 256 + c2, 0 <= s2 < 256, 0 <= c2 < 256;
    assert(a == b);
    assert(k1 == k2 && s1 == s2 && c1 == c2) by (nonlinear_arith)
        requires a == b, a == k1 * 65536 + s1 * 256 + c1, b == k2 * 65536 + s2 * 256 + c2,
            0 <= s1 < 256, 0 <= c1 < 256, 0 <= s2 < 256, 0 <= c2 < 256, 0 <= k1, 0 <= k2;
}

fn index_key(kind: usize, sys: u8, comp: u8) -> (r: u128)
    ensures
        r == key_of(kind as int, sys, comp),
{
    proof {
        assert((kind as int) * 65536 + (sys as int) * 256 + (comp as int) < u128::MAX)
            by (nonlinear_arith) requires kind <= usize::MAX, sys < 256, comp < 256;
    }
    kind as u128 * 65536 + sys as u128 * 256 + comp as u128
}

/// `first_of` after appending `x`.
proof fn lemma_first_of_push<A>(s: Seq<A>, x: A, c: A)
    ensures
        first_of(s.push(x), c) == (match first_of(s, c) {
            Some(i) => Some(i),
            None => if x == c { Some(s.len() as int) } else { None::<int> },
        }),
    decreases s.len(),
{
    if s.len() == 0 {
        assert(s.push(x).drop_first() =~= Seq::<A>::empty());
        assert(first_of(Seq::<A>::empty(), c) is None);
    } else if s[0] != c {
        assert(s.push(x).drop_first() =~= s.drop_first().push(x));
        lemma_first_of_push(s.drop_first(), x, c);
    }
}

proof fn lemma_first_of_contains<A>(s: Seq<A>, c: A)
    ensures
        first_of(s, c) is Some <==> s.contains(c),
    decreases s.len(),
{
    lemma_first_of_bounds(s, c);
    if s.len() > 0 && s[0] != c {
        lemma_first_of_contains(s.drop_first(), c);
        if s.contains(c) {
            let j = choose|j: int| 0 <= j < s.len() && s[j] == c;
            assert(s.drop_first()[j - 1] == c);
        }
        if s.drop_first().contains(c) {
            let j = choose|j: int| 0 <= j < s.len() - 1 && s.drop_first()[j] == c;
            assert(s[j + 1] == c);
        }
    }
}

/// One step of a filter built from the front.
proof fn lemma_filter_step<A>(s: Seq<A>, i: int, pred: spec_fn(A) -> bool)
    requires
        0 <= i < s.len(),
    ensures
        s.subrange(0, i + 1).filter(pred) == (if pred(s[i]) {
            s.subrange(0, i).filter(pred).push(s[i])
        } else {
            s.subrange(0, i).filter(pred)
        }),
{
    reveal(Seq::filter);
    assert(s.subrange(0, i + 1).drop_last() =~= s.subrange(0, i));
}

impl Collector {
    /// The collector's internal agreements: the classifier's two columns line
    /// up, each live row carries the table id of its type, which is marked
    /// live, the index maps the
    /// key of each live row to that row and holds nothing else, and every row
    /// has the colours of its producer and type.
    pub closed spec fn wf(&self) -> bool {
        let names = names_of(self.kinds@);
        &&& self.kinds@.len() == self.kind_live@.len()
        &&& self.stream@.len() == self.stream_kinds@.len()
        &&& forall|i: int| 0 <= i < self.stream@.len() ==> {
            &&& first_of(names, #[trigger] self.stream@[i].name@) == Some(self.stream_kinds@[i] as int)
            &&& self.kind_live@[self.stream_kinds@[i] as int]
            &&& self.stream@[i].hues_fit()
        }
        &&& forall|i: int| #![trigger self.stream_kinds@[i]] 0 <= i < self.stream@.len() ==> {
            let k = key_of(self.stream_kinds@[i] as int, self.stream@[i].sys_id, self.stream@[i].comp_id);
            &&& self.stream_index@.contains_key(k)
            &&& self.stream_index@[k] == i
        }
        &&& forall|k: u128| #[trigger] self.stream_index@.contains_key(k) ==> {
            let i = self.stream_index@[k] as int;
            &&& 0 <= i < self.stream@.len()
            &&& k == key_of(self.stream_kinds@[i] as int, self.stream@[i].sys_id, self.stream@[i].comp_id)
        }
        &&& forall|i: int| 0 <= i < self.messages@.len() ==> (#[trigger] self.messages@[i]).hues_fit()
    }

    /// Row `i` of the live table has the key of `r`.
    proof fn lemma_row_key(&self, i: int, r: RecordView, kind: int)
        requires
            self.wf(),
            0 <= i < self.stream@.len(),
            0 <= kind <= usize::MAX,
            first_of(names_of(self.kinds@), r.name) == Some(kind),
        ensures
            same_key(self@.live[i], r) <==> key_of(self.stream_kinds@[i] as int, self.stream@[i].sys_id,
                self.stream@[i].comp_id) == key_of(kind, r.system_id, r.component_id),
    {
        let names = names_of(self.kinds@);
        let row = self.stream@[i];
        assert(self@.live[i] == row@);
        lemma_first_of_bounds(names, r.name);
        lemma_first_of_bounds(names, row.name@);
        assert(first_of(names, row.name@) == Some(self.stream_kinds@[i] as int));
        if key_of(self.stream_kinds@[i] as int, row.sys_id, row.comp_id) == key_of(kind, r.system_id, r.component_id) {
            lemma_key_of_injective(self.stream_kinds@[i] as int, row.sys_id, row.comp_id, kind,
                r.system_id, r.component_id);
            assert(names[kind] == r.name);
            assert(names[self.stream_kinds@[i] as int] == row.name@);
        }
    }

    /// Distinct live rows have distinct keys.
    pub proof fn lemma_keys_unique(&self)
        requires
            self.wf(),
        ensures
            keys_unique(self@.live),
    {
        assert forall|i: int, j: int|
            0 <= i < self@.live.len() && 0 <= j < self@.live.len() && same_key(self@.live[i], self@.live[j])
            implies i == j by {
            let names = names_of(self.kinds@);
            let rj = self@.live[j];
            assert(rj == self.stream@[j]@);
            assert(first_of(names, rj.name) == Some(self.stream_kinds@[j] as int));
            self.lemma_row_key(i, rj, self.stream_kinds@[j] as int);
            let ki = key_of(self.stream_kinds@[i] as int, self.stream@[i].sys_id, self.stream@[i].comp_id);
            let kj = key_of(self.stream_kinds@[j] as int, self.stream@[j].sys_id, self.stream@[j].comp_id);
            assert(self.stream_index@[ki] == i);
            assert(self.stream_index@[kj] == j);
        }
    }

    /// What the agreements of `wf` mean for the view.
    pub proof fn lemma_consistent(&self)
        requires
            self.wf(),
        ensures
            self@.consistent(),
    {
        self.lemma_keys_unique();
        assert forall|i: int| 0 <= i < self@.live.len() implies self@.live_types.contains(#[trigger] self@.live[i].name) by {
            let names = names_of(self.kinds@);
            assert(self@.live[i] == self.stream@[i]@);
            assert(first_of(names, self.stream@[i].name@) == Some(self.stream_kinds@[i] as int));
            lemma_first_of_bounds(names, self.stream@[i].name@);
        }
    }

    pub fn new() -> (r: Self)
        ensures
            r.wf(),
            r@.live == Seq::<RecordView>::empty(),
            r@.log == Seq::<LogView>::empty(),
            r@.live_types == default_stream_names().to_set(),
    {
        let list = default_stream_types();
        let mut kinds: Vec<String> = Vec::new();
        let mut kind_live: Vec<bool> = Vec::new();
        let mut i: usize = 0;
        while i < list.len()
            invariant
                i <= list@.len(),
                kinds@.len() == i,
                kind_live@.len() == i,
                names_of(kinds@) == text_views(list@).subrange(0, i as int),
                forall|j: int| 0 <= j < i ==> kind_live@[j],
            decreases list@.len() - i,
        {
            kinds.push(String::from_str(list[i]));
            kind_live.push(true);
            i = i + 1;
            assert(names_of(kinds@) =~= text_views(list@).subrange(0, i as int));
        }
        let r = Collector {
            stream: Vec::new(),
            stream_kinds: Vec::new(),
            stream_index: HashMap::new(),
            messages: Vec::new(),
            kinds,
            kind_live,
        };
        let ghost names = names_of(r.kinds@);
        proof {
            assert(names =~= default_stream_names());
            assert forall|n: Seq<char>| r@.live_types.contains(n) <==> default_stream_names().to_set().contains(n) by {
                lemma_first_of_contains(names, n);
                lemma_first_of_bounds(names, n);
            }
            assert(r@.live_types =~= default_stream_names().to_set());
            assert(r@.live =~= Seq::<RecordView>::empty());
            assert(r@.log =~= Seq::<LogView>::empty());
        }
        r
    }

    /// Table id of `name`, if the classifier has it. The table holds type
    /// names of the protocol's closed vocabulary, so a lookup is bounded by
    /// that vocabulary, whatever the number of rows.
    fn lookup(&self, name: &String) -> (r: Option<usize>)
        requires
            self.wf(),
        ensures
            match r {
                Some(k) => first_of(names_of(self.kinds@), name@) == Some(k as int) && k < self.kinds@.len(),
                None => first_of(names_of(self.kinds@), name@) == None::<int>,
            },
    {
        let ghost names = names_of(self.kinds@);
        let mut i: usize = 0;
        while i < self.kinds.len()
            invariant
                names == names_of(self.kinds@),
                i <= self.kinds@.len(),
                forall|j: int| 0 <= j < i ==> names[j] != name@,
            decreases self.kinds@.len() - i,
        {
            if self.kinds[i] == *name {
                proof {
                    lemma_first_of_at(names, name@, i as int);
                }
                return Some(i);
            }
            i = i + 1;
        }
        proof {
            lemma_first_of_at(names, name@, names.len() as int);
        }
        None
    }

    /// Whether messages of type `name` currently go to the live table.
    pub fn is_stream_type(&self, name: &String) -> (r: bool)
        requires
            self.wf(),
        ensures
            r == self@.live_types.contains(name@),
    {
        match self.lookup(name) {
            Some(k) => self.kind_live[k],
            None => false,
        }
    }

    /// Ingests one message: a live type overwrites the row of its producer in
    /// place (found through the index) or appends one; any other type is
    /// appended to the log.
    pub fn push(&mut self, msg: MavMsg)
        requires
            old(self).wf(),
        ensures
            final(self).wf(),
            final(self)@ == old(self)@.after_push(msg@),
    {
        let ghost pre = *self;
        let ghost r = msg@;
        let color = origin_color(msg.system_id, msg.component_id);
        let msg_color = type_color(&msg.name);
        let found = self.lookup(&msg.name);
        let live_kind = match found {
            Some(k) => if self.kind_live[k] {
                Some(k)
            } else {
                None
            },
            None => None,
        };
        match live_kind {
            Some(k) => {
                let key = index_key(k, msg.system_id, msg.component_id);
                let at = match self.stream_index.get(&key) {
                    Some(i) => Some(*i),
                    None => None,
                };
                let entry = StreamEntry {
                    color,
                    msg_color,
                    sys_id: msg.system_id,
                    comp_id: msg.component_id,
                    name: msg.name,
                    fields: msg.fields,
                    timestamp: msg.timestamp,
                };
                assert(entry@ == r);
                match at {
                    Some(idx) => {
                        proof {
                            pre.lemma_row_key(idx as int, r, k as int);
                            pre.lemma_keys_unique();
                            assert(same_key(pre@.live[idx as int], r));
                            let c = choose|i: int| 0 <= i < pre@.live.len() && same_key(#[trigger] pre@.live[i], r);
                            assert(same_key(pre@.live[c], pre@.live[idx as int]));
                        }
                        self.stream.set(idx, entry);
                        proof {
                            assert(self@.live =~= pre@.live.update(idx as int, r));
                            assert(self.stream@[idx as int].name@ == pre.stream@[idx as int].name@);
                            assert forall|i: int| #![trigger self.stream_kinds@[i]] 0 <= i < self.stream@.len() implies {
                                let k = key_of(self.stream_kinds@[i] as int, self.stream@[i].sys_id, self.stream@[i].comp_id);
                                &&& self.stream_index@.contains_key(k)
                                &&& self.stream_index@[k] == i
                            } by {
                                assert(self.stream@[i].sys_id == pre.stream@[i].sys_id);
                                assert(self.stream@[i].comp_id == pre.stream@[i].comp_id);
                            }
                        }
                    },
                    None => {
                        proof {
                            assert forall|i: int| 0 <= i < pre@.live.len() implies !same_key(#[trigger] pre@.live[i], r) by {
                                pre.lemma_row_key(i, r, k as int);
                            }
                        }
                        let idx = self.stream.len();
                        self.stream_index.insert(key, idx);
                        self.stream.push(entry);
                        self.stream_kinds.push(k);
                        proof {
                            assert(self@.live =~= pre@.live.push(r));
                            assert forall|i: int| #![trigger self.stream_kinds@[i]] 0 <= i < self.stream@.len() implies {
                                let k = key_of(self.stream_kinds@[i] as int, self.stream@[i].sys_id, self.stream@[i].comp_id);
                                &&& self.stream_index@.contains_key(k)
                                &&& self.stream_index@[k] == i
                            } by {
                                if i < idx {
                                    let ki = key_of(pre.stream_kinds@[i] as int, pre.stream@[i].sys_id, pre.stream@[i].comp_id);
                                    assert(pre.stream_index@.contains_key(ki));
                                    assert(ki != key);
                                }
                            }
                            assert forall|k2: u128| #[trigger] self.stream_index@.contains_key(k2) implies {
                                let i = self.stream_index@[k2] as int;
                                &&& 0 <= i < self.stream@.len()
                                &&& k2 == key_of(self.stream_kinds@[i] as int, self.stream@[i].sys_id, self.stream@[i].comp_id)
                            } by {
                                if k2 != key {
                                    assert(pre.stream_index@.contains_key(k2));
                                }
                            }
                        }
                    },
                }
            },
            None => {
                proof {
                    lemma_first_of_bounds(names_of(pre.kinds@), r.name);
                    assert(!pre@.live_types.contains(r.name));
                }
                self.messages.push(
                    MessageEntry {
                        color,
                        msg_color,
                        sys_id: msg.system_id,
                        comp_id: msg.component_id,
                        name: msg.name,
                        fields: msg.fields,
                    },
                );
                assert(self@.log =~= pre@.log.push(log_view(r)));
            },
        }
    }

    /// The live rows, in the order their keys were first seen.
    pub fn stream(&self) -> (r: &[StreamEntry])
        requires
            self.wf(),
        ensures
            r@.map_values(|e: StreamEntry| e@) == self@.live,
            forall|i: int| 0 <= i < r@.len() ==> (#[trigger] r@[i]).hues_fit(),
    {
        self.stream.as_slice()
    }

    /// The log rows, in arrival order.
    pub fn messages(&self) -> (r: &[MessageEntry])
        requires
            self.wf(),
        ensures
            r@.map_values(|e: MessageEntry| e@) == self@.log,
            forall|i: int| 0 <= i < r@.len() ==> (#[trigger] r@[i]).hues_fit(),
    {
        self.messages.as_slice()
    }

    /// Removes the live rows of type `name` and rebuilds the index over the
    /// rows that stay.
    fn drop_stream_rows(&mut self, name: &String)
        requires
            old(self).wf(),
        ensures
            final(self).wf(),
            final(self)@.live == old(self)@.live.filter(not_live_named(name@)),
            final(self).kinds == old(self).kinds,
            final(self).kind_live == old(self).kind_live,
            final(self).messages == old(self).messages,
    {
        let ghost pre = *self;
        let ghost views = pre@.live;
        let ghost pred = not_live_named(name@);
        let mut kept: Vec<StreamEntry> = Vec::new();
        let mut kept_kinds: Vec<usize> = Vec::new();
        let mut index: HashMap<u128, usize> = HashMap::new();
        let ghost mut src: Seq<int> = Seq::empty();
        let mut i: usize = 0;
        while i < self.stream.len()
            invariant
                *self == pre,
                pre.wf(),
                views == pre@.live,
                pred == not_live_named(name@),
                i <= pre.stream@.len(),
                kept@.len() == kept_kinds@.len(),
                kept@.len() == src.len(),
                kept@.map_values(|e: StreamEntry| e@) == views.subrange(0, i as int).filter(pred),
                forall|t: int| #![trigger src[t]] 0 <= t < src.len() ==> {
                    &&& 0 <= src[t] < i
                    &&& kept@[t] == pre.stream@[src[t]]
                    &&& kept_kinds@[t] == pre.stream_kinds@[src[t]]
                },
                forall|t: int| #![trigger kept_kinds@[t]] 0 <= t < kept@.len() ==> {
                    let k = key_of(kept_kinds@[t] as int, kept@[t].sys_id, kept@[t].comp_id);
                    &&& index@.contains_key(k)
                    &&& index@[k] == t
                },
                forall|k: u128| #[trigger] index@.contains_key(k) ==> {
                    let t = index@[k] as int;
                    &&& 0 <= t < kept@.len()
                    &&& k == key_of(kept_kinds@[t] as int, kept@[t].sys_id, kept@[t].comp_id)
                },
            decreases pre.stream@.len() - i,
        {
            proof {
                lemma_filter_step(views, i as int, pred);
                assert(views[i as int] == pre.stream@[i as int]@);
            }
            if self.stream[i].name != *name {
                let kind = self.stream_kinds[i];
                let key = index_key(kind, self.stream[i].sys_id, self.stream[i].comp_id);
                let ghost before = kept@.map_values(|e: StreamEntry| e@);
                proof {
                    let ki = key_of(pre.stream_kinds@[i as int] as int, pre.stream@[i as int].sys_id,
                        pre.stream@[i as int].comp_id);
                    assert(pre.stream_index@[ki] == i);
                    assert forall|t: int| 0 <= t < kept@.len() implies
                        key_of(kept_kinds@[t] as int, kept@[t].sys_id, kept@[t].comp_id) != key by {
                        let st = src[t];
                        let kt = key_of(pre.stream_kinds@[st] as int, pre.stream@[st].sys_id, pre.stream@[st].comp_id);
                        assert(pre.stream_index@[kt] == st);
                    }
                }
                let t = kept.len();
                index.insert(key, t);
                kept.push(self.stream[i].duplicate());
                kept_kinds.push(kind);
                proof {
                    src = src.push(i as int);
                    assert(kept@.map_values(|e: StreamEntry| e@) =~= before.push(views[i as int]));
                    assert forall|u: int| #![trigger kept_kinds@[u]] 0 <= u < kept@.len() implies {
                        let k = key_of(kept_kinds@[u] as int, kept@[u].sys_id, kept@[u].comp_id);
                        &&& index@.contains_key(k)
                        &&& index@[k] == u
                    } by {
                        if u < t {
                            assert(key_of(kept_kinds@[u] as int, kept@[u].sys_id, kept@[u].comp_id) != key);
                        }
                    }
                    assert forall|k: u128| #[trigger] index@.contains_key(k) implies {
                        let u = index@[k] as int;
                        &&& 0 <= u < kept@.len()
                        &&& k == key_of(kept_kinds@[u] as int, kept@[u].sys_id, kept@[u].comp_id)
                    } by {
                        if k != key {
                            let u = index@[k] as int;
                            assert(u < t);
                        }
                    }
                }
            }
            i = i + 1;
        }
        proof {
            assert(views.subrange(0, i as int) =~= views);
        }
        self.stream = kept;
        self.stream_kinds = kept_kinds;
        self.stream_index = index;
        proof {
            assert forall|t: int| 0 <= t < self.stream@.len() implies {
                &&& first_of(names_of(self.kinds@), #[trigger] self.stream@[t].name@) == Some(self.stream_kinds@[t] as int)
                &&& self.kind_live@[self.stream_kinds@[t] as int]
                &&& self.stream@[t].hues_fit()
            } by {
                let st = src[t];
                assert(pre.stream@[st].name@ == self.stream@[t].name@);
            }
        }
    }

    /// Removes the log rows of type `name`.
    fn drop_log_rows(&mut self, name: &String)
        requires
            old(self).wf(),
        ensures
            final(self).wf(),
            final(self)@.log == old(self)@.log.filter(not_log_named(name@)),
            final(self).kinds == old(self).kinds,
            final(self).kind_live == old(self).kind_live,
            final(self).stream == old(self).stream,
    {
        let ghost pre = *self;
        let ghost views = pre@.log;
        let ghost pred = not_log_named(name@);
        let mut kept: Vec<MessageEntry> = Vec::new();
        let mut i: usize = 0;
        while i < self.messages.len()
            invariant
                *self == pre,
                pre.wf(),
                views == pre@.log,
                pred == not_log_named(name@),
                i <= pre.messages@.len(),
                kept@.map_values(|e: MessageEntry| e@) == views.subrange(0, i as int).filter(pred),
                forall|t: int| 0 <= t < kept@.len() ==> (#[trigger] kept@[t]).hues_fit(),
            decreases pre.messages@.len() - i,
        {
            proof {
                lemma_filter_step(views, i as int, pred);
                assert(views[i as int] == pre.messages@[i as int]@);
            }
            if self.messages[i].name != *name {
                let ghost before = kept@.map_values(|e: MessageEntry| e@);
                kept.push(self.messages[i].duplicate());
                assert(kept@.map_values(|e: MessageEntry| e@) =~= before.push(views[i as int]));
            }
            i = i + 1;
        }
        proof {
            assert(views.subrange(0, i as int) =~= views);
        }
        self.messages = kept;
    }

    /// Moves type `name` out of the live table (`currently_stream`) or into
    /// it. Its rows in the table it leaves are dropped; its later messages go
    /// to the other table, live ones under fresh keys.
    fn move_type(&mut self, name: &str, currently_stream: bool)
        requires
            old(self).wf(),
        ensures
            final(self).wf(),
            final(self)@ == old(self)@.after_toggle(name@, currently_stream),
    {
        let ghost pre = *self;
        let name_s = String::from_str(name);
        let k = match self.lookup(&name_s) {
            Some(k) => k,
            None => {
                let k = self.kinds.len();
                self.kinds.push(name_s.clone());
                self.kind_live.push(false);
                proof {
                    let names = names_of(pre.kinds@);
                    assert(names_of(self.kinds@) =~= names.push(name@));
                    lemma_first_of_push(names, name@, name@);
                    assert forall|n: Seq<char>| #[trigger] first_of(names_of(self.kinds@), n) is Some
                        && n != name@ implies first_of(names_of(self.kinds@), n) == first_of(names, n) by {
                        lemma_first_of_push(names, name@, n);
                    }
                    assert forall|i: int| 0 <= i < self.stream@.len() implies
                        first_of(names_of(self.kinds@), #[trigger] self.stream@[i].name@) == Some(self.stream_kinds@[i] as int)
                        && self.kind_live@[self.stream_kinds@[i] as int] by {
                        lemma_first_of_push(names, name@, self.stream@[i].name@);
                        lemma_first_of_bounds(names, self.stream@[i].name@);
                        assert(self.kind_live@[self.stream_kinds@[i] as int] == pre.kind_live@[self.stream_kinds@[i] as int]);
                    }
                    assert forall|n: Seq<char>| live_set(names_of(self.kinds@), self.kind_live@).contains(n)
                        <==> live_set(names, pre.kind_live@).contains(n) by {
                        lemma_first_of_push(names, name@, n);
                        lemma_first_of_bounds(names, n);
                    }
                    assert(live_set(names_of(self.kinds@), self.kind_live@) =~= live_set(names, pre.kind_live@));
                }
                k
            },
        };
        let ghost mid = *self;
        assert(mid.wf());
        if currently_stream {
            self.drop_stream_rows(&name_s);
            let ghost dropped = *self;
            self.kind_live.set(k, false);
            proof {
                let names = names_of(self.kinds@);
                lemma_first_of_bounds(names, name@);
                assert forall|n: Seq<char>| #[trigger] live_set(names, self.kind_live@).contains(n)
                    <==> mid@.live_types.remove(name@).contains(n) by {
                    lemma_first_of_bounds(names, n);
                }
                assert(live_set(names, self.kind_live@) =~= pre@.live_types.remove(name@));
                assert forall|i: int| 0 <= i < self.stream@.len() implies
                    self.kind_live@[#[trigger] self.stream_kinds@[i] as int] by {
                    mid@.live.lemma_filter_pred(not_live_named(name@), i);
                    assert(dropped@.live[i] == self.stream@[i]@);
                    lemma_first_of_bounds(names, self.stream@[i].name@);
                }
            }
        } else {
            self.kind_live.set(k, true);
            proof {
                let names = names_of(self.kinds@);
                lemma_first_of_bounds(names, name@);
                assert forall|n: Seq<char>| #[trigger] live_set(names, self.kind_live@).contains(n)
                    <==> mid@.live_types.insert(name@).contains(n) by {
                    lemma_first_of_bounds(names, n);
                }
                assert(live_set(names, self.kind_live@) =~= pre@.live_types.insert(name@));
                assert(self@.live == mid@.live);
                assert forall|i: int| 0 <= i < self.stream@.len() implies
                    self.kind_live@[#[trigger] self.stream_kinds@[i] as int] by {
                    assert(first_of(names_of(mid.kinds@), mid.stream@[i].name@) == Some(mid.stream_kinds@[i] as int));
                    lemma_first_of_bounds(names_of(mid.kinds@), mid.stream@[i].name@);
                }
            }
            self.drop_log_rows(&name_s);
        }
    }

    /// Flips the category of type `name`: a live type moves to the log, any
    /// other type to the live table. The category the collector holds
    /// decides; `_currently_stream`, the caller's idea of it, is not
    /// consulted.
    pub fn toggle_category(&mut self, name: &str, _currently_stream: bool)
        requires
            old(self).wf(),
        ensures
            final(self).wf(),
            final(self)@ == old(self)@.after_toggle(name@, old(self)@.live_types.contains(name@)),
    {
        self.toggle(name);
    }

    /// Flips the category of type `name`: a live type moves to the log, any
    /// other type to the live table.
    pub fn toggle(&mut self, name: &str)
        requires
            old(self).wf(),
        ensures
            final(self).wf(),
            final(self)@ == old(self)@.after_toggle(name@, old(self)@.live_types.contains(name@)),
    {
        let name_s = String::from_str(name);
        let live = self.is_stream_type(&name_s);
        self.move_type(name, live);
    }

    /// Empties both row sets; the classification is kept.
    pub fn clear(&mut self)
        requires
            old(self).wf(),
        ensures
            final(self).wf(),
            final(self)@ == old(self)@.after_clear(),
    {
        self.stream.clear();
        self.stream_kinds.clear();
        self.stream_index.clear();
        self.messages.clear();
        assert(self@.live =~= Seq::<RecordView>::empty());
        assert(self@.log =~= Seq::<LogView>::empty());
    }
}

} // verus!
