//! The event model the sinks and the reparser work on: log events as fields keyed by
//! path, metric events with name, tags, time, kind and value.
//!
//! Floating-point numbers are held as the bit pattern of their IEEE 754 binary64
//! encoding; where a number's text is needed, the value carries it.
use vstd::prelude::*;
use crate::text::{chars_of, i64_decimal, i64_to_text, text_eq, lossy_decode, utf8_lossy_text};
use crate::time::{chrono_rfc3339, Timestamp};

verus! {

/// No key occurs twice among `s`.
pub open spec fn distinct_keys<V>(s: Seq<(Seq<char>, V)>) -> bool {
    forall|i: int, j: int|
        0 <= i < s.len() && 0 <= j < s.len() && i != j ==> #[trigger] s[i].0 != #[trigger] s[j].0
}

/// Whether `k` is a key among `s`.
pub open spec fn has_key<V>(s: Seq<(Seq<char>, V)>, k: Seq<char>) -> bool {
    exists|i: int| 0 <= i < s.len() && #[trigger] s[i].0 == k
}

/// A position of `k` among `s`.
pub open spec fn key_index<V>(s: Seq<(Seq<char>, V)>, k: Seq<char>) -> int {
    choose|i: int| 0 <= i < s.len() && #[trigger] s[i].0 == k
}

/// The map that a sequence of distinct-keyed pairs stands for.
pub open spec fn pairs_map<V>(s: Seq<(Seq<char>, V)>) -> Map<Seq<char>, V> {
    Map::new(|k: Seq<char>| has_key(s, k), |k: Seq<char>| s[key_index(s, k)].1)
}

/// Where the key sits, the map holds that pair's value.
pub proof fn lemma_pairs_map_at<V>(s: Seq<(Seq<char>, V)>, i: int)
    requires
        distinct_keys(s),
        0 <= i < s.len(),
    ensures
        pairs_map(s).contains_key(s[i].0),
        pairs_map(s)[s[i].0] == s[i].1,
{
    assert(has_key(s, s[i].0));
    let j = key_index(s, s[i].0);
    assert(s[j].0 == s[i].0);
}

/// Pushing a pair with a new key adds exactly that key to the map.
pub proof fn lemma_pairs_map_push<V>(s: Seq<(Seq<char>, V)>, k: Seq<char>, v: V)
    requires
        distinct_keys(s),
        !has_key(s, k),
    ensures
        distinct_keys(s.push((k, v))),
        pairs_map(s.push((k, v))) == pairs_map(s).insert(k, v),
{
    let t = s.push((k, v));
    assert forall|i: int, j: int|
        0 <= i < t.len() && 0 <= j < t.len() && i != j implies #[trigger] t[i].0 != #[trigger] t[j].0 by {
        if i < s.len() && j < s.len() {
            assert(s[i].0 != s[j].0);
        } else if i < s.len() {
            assert(s[i].0 != k);
        } else {
            assert(s[j].0 != k);
        }
    }
    assert forall|q: Seq<char>| #[trigger] pairs_map(t).contains_key(q) == pairs_map(s).insert(k, v).contains_key(q) by {
        if has_key(s, q) {
            let i = key_index(s, q);
            assert(t[i].0 == q);
        }
        if has_key(t, q) && q != k {
            let i = key_index(t, q);
            assert(s[i].0 == q);
        }
        if q == k {
            assert(t[s.len() as int].0 == k);
        }
    }
    assert forall|q: Seq<char>| #[trigger] pairs_map(t).contains_key(q) implies pairs_map(t)[q] == pairs_map(s).insert(k, v)[q] by {
        if q == k {
            lemma_pairs_map_at(t, s.len() as int);
        } else {
            let i = key_index(s, q);
            lemma_pairs_map_at(s, i);
            lemma_pairs_map_at(t, i);
        }
    }
    assert(pairs_map(t) =~= pairs_map(s).insert(k, v));
}

/// Replacing the value of an existing key changes the map at that key only.
pub proof fn lemma_pairs_map_update<V>(s: Seq<(Seq<char>, V)>, i: int, v: V)
    requires
        distinct_keys(s),
        0 <= i < s.len(),
    ensures
        distinct_keys(s.update(i, (s[i].0, v))),
        pairs_map(s.update(i, (s[i].0, v))) == pairs_map(s).insert(s[i].0, v),
{
    let k = s[i].0;
    let t = s.update(i, (k, v));
    assert forall|a: int, b: int|
        0 <= a < t.len() && 0 <= b < t.len() && a != b implies #[trigger] t[a].0 != #[trigger] t[b].0 by {
        assert(s[a].0 != s[b].0);
    }
    assert forall|q: Seq<char>| #[trigger] pairs_map(t).contains_key(q) == pairs_map(s).insert(k, v).contains_key(q) by {
        if has_key(s, q) {
            let j = key_index(s, q);
            assert(t[j].0 == q);
        }
        if has_key(t, q) {
            let j = key_index(t, q);
            assert(s[j].0 == q);
        }
        if q == k {
            assert(s[i].0 == q);
        }
    }
    assert forall|q: Seq<char>| #[trigger] pairs_map(t).contains_key(q) implies pairs_map(t)[q] == pairs_map(s).insert(k, v)[q] by {
        if q == k {
            lemma_pairs_map_at(t, i);
        } else {
            let j = key_index(s, q);
            lemma_pairs_map_at(s, j);
            lemma_pairs_map_at(t, j);
        }
    }
    assert(pairs_map(t) =~= pairs_map(s).insert(k, v));
}

/// A sequence of distinct-keyed pairs stands for a finite map with one key per pair.
pub proof fn lemma_pairs_map_len<V>(s: Seq<(Seq<char>, V)>)
    requires
        distinct_keys(s),
    ensures
        pairs_map(s).dom().finite(),
        pairs_map(s).len() == s.len(),
    decreases s.len(),
{
    if s.len() == 0 {
        assert(pairs_map(s) =~= Map::<Seq<char>, V>::empty());
    } else {
        let t = s.drop_last();
        let last = s.last();
        assert(distinct_keys(t)) by {
            assert forall|i: int, j: int|
                0 <= i < t.len() && 0 <= j < t.len() && i != j implies #[trigger] t[i].0 != #[trigger] t[j].0 by {
                assert(s[i].0 != s[j].0);
            }
        }
        assert(!has_key(t, last.0)) by {
            if has_key(t, last.0) {
                let j = key_index(t, last.0);
                assert(s[j].0 == s[s.len() - 1].0);
            }
        }
        lemma_pairs_map_len(t);
        lemma_pairs_map_push(t, last.0, last.1);
        assert(t.push((last.0, last.1)) =~= s);
    }
}

/// The position of `key` among the keys of `entries`, if it is there.
pub fn find_key<V>(entries: &Vec<(String, V)>, key: &str) -> (r: Option<usize>)
    ensures
        r matches Some(i) ==> i < entries@.len() && entries@[i as int].0@ == key@,
        r is None ==> forall|i: int| 0 <= i < entries@.len() ==> (#[trigger] entries@[i]).0@ != key@,
{
    let mut i: usize = 0;
    while i < entries.len()
        invariant
            0 <= i <= entries@.len(),
            forall|j: int| 0 <= j < i ==> (#[trigger] entries@[j]).0@ != key@,
        decreases entries.len() - i,
    {
        if text_eq(entries[i].0.as_str(), key) {
            return Some(i);
        }
        i = i + 1;
    }
    None
}

/// A floating-point number: the bit pattern of its binary64 encoding, and the text
/// that the number displays as. Whoever builds the value sets both from the same
/// float (`f64::to_bits` and `Display`); nothing here ties the text to the bits.
#[derive(Clone, Debug)]
pub struct F64Value {
    pub bits: u64,
    pub rendered: String,
}

/// A nested map or array, held as the JSON text that it renders as (`serde_json`,
/// map keys in sorted order). Whoever builds the value sets the text from the
/// nested value; nothing here reads inside it.
#[derive(Clone, Debug)]
pub struct JsonText {
    pub text: String,
}

/// A value held by a field of a log event.
#[derive(Clone, Debug)]
pub enum Value {
    Bytes(Vec<u8>),
    Integer(i64),
    Float(F64Value),
    Boolean(bool),
    Timestamp(Timestamp),
    Object(JsonText),
    Array(JsonText),
    Null,
}

/// The text of a value, as `Value::to_string_lossy` renders it.
pub open spec fn value_text(v: Value) -> Seq<char> {
    match v {
        Value::Bytes(b) => lossy_decode(b@),
        Value::Integer(i) => i64_decimal(i),
        Value::Float(f) => f.rendered@,
        Value::Boolean(b) => if b {
            "true"@
        } else {
            "false"@
        },
        Value::Timestamp(t) => chrono_rfc3339(t@.0, t@.1),
        Value::Object(j) => j.text@,
        Value::Array(j) => j.text@,
        Value::Null => "<null>"@,
    }
}

impl Value {
    /// The text of the value: bytes decoded as UTF-8 (lossily), numbers in decimal,
    /// booleans as `true`/`false`, timestamps in RFC 3339, maps and arrays as their JSON,
    /// null as `<null>`.
    pub fn to_string_lossy(&self) -> (r: String)
        ensures
            r@ == value_text(*self),
    {
        match self {
            Value::Bytes(b) => utf8_lossy_text(b.as_slice()),
            Value::Integer(i) => i64_to_text(*i),
            Value::Float(f) => f.rendered.clone(),
            Value::Boolean(b) => if *b {
                String::from_str("true")
            } else {
                String::from_str("false")
            },
            Value::Timestamp(t) => t.to_rfc3339(),
            Value::Object(j) => j.text.clone(),
            Value::Array(j) => j.text.clone(),
            Value::Null => String::from_str("<null>"),
        }
    }

    /// A text value, held as its UTF-8 bytes; its text is the given text.
    pub fn from_text(s: &str) -> (r: Value)
        ensures
            r matches Value::Bytes(b) && b@ == vstd::utf8::encode_utf8(s@),
            value_text(r) == s@,
    {
        let b = s.as_bytes_vec();
        proof {
            vstd::utf8::encode_utf8_valid_utf8(s@);
            vstd::utf8::encode_utf8_decode_utf8(s@);
        }
        Value::Bytes(b)
    }
}

/// The keys and values of a log event's fields, as texts and values.
pub open spec fn field_pairs(s: Seq<(String, Value)>) -> Seq<(Seq<char>, Value)> {
    s.map_values(|p: (String, Value)| (p.0@, p.1))
}

/// A log event: values stored under field paths (such as `metadata.kind`), each path
/// at most once.
#[derive(Debug)]
pub struct LogEvent {
    fields: Vec<(String, Value)>,
}

impl View for LogEvent {
    type V = Map<Seq<char>, Value>;

    closed spec fn view(&self) -> Map<Seq<char>, Value> {
        pairs_map(field_pairs(self.fields@))
    }
}

impl LogEvent {
    #[verifier::type_invariant]
    spec fn paths_distinct(self) -> bool {
        distinct_keys(field_pairs(self.fields@))
    }

    /// An event without fields.
    pub fn new() -> (r: LogEvent)
        ensures
            r@ == Map::<Seq<char>, Value>::empty(),
    {
        let fields: Vec<(String, Value)> = Vec::new();
        assert(field_pairs(fields@) =~= Seq::<(Seq<char>, Value)>::empty());
        let r = LogEvent { fields };
        assert(r@ =~= Map::<Seq<char>, Value>::empty());
        r
    }

    /// Stores `value` under `path`, replacing what was there.
    pub fn insert(&mut self, path: &str, value: Value)
        ensures
            final(self)@ == old(self)@.insert(path@, value),
    {
        proof {
            use_type_invariant(&*self);
        }
        let ghost before = field_pairs(self.fields@);
        match find_key(&self.fields, path) {
            Some(i) => {
                let key = self.fields[i].0.clone();
                let ghost k = key@;
                proof {
                    assert(before[i as int].0 == k);
                    lemma_pairs_map_update(before, i as int, value);
                }
                let mut fields: Vec<(String, Value)> = Vec::new();
                std::mem::swap(&mut fields, &mut self.fields);
                fields.set(i, (key, value));
                proof {
                    assert(field_pairs(fields@) =~= before.update(i as int, (k, value)));
                }
                self.fields = fields;
            },
            None => {
                proof {
                    assert(!has_key(before, path@)) by {
                        if has_key(before, path@) {
                            let j = key_index(before, path@);
                            assert(self.fields@[j].0@ == path@);
                        }
                    }
                    lemma_pairs_map_push(before, path@, value);
                }
                let mut fields: Vec<(String, Value)> = Vec::new();
                std::mem::swap(&mut fields, &mut self.fields);
                fields.push((String::from_str(path), value));
                proof {
                    assert(field_pairs(fields@) =~= before.push((path@, value)));
                }
                self.fields = fields;
            },
        }
    }

    /// The value stored under `path`, if any.
    pub fn get(&self, path: &str) -> (r: Option<&Value>)
        ensures
            r is Some <==> self@.contains_key(path@),
            r matches Some(v) ==> *v == self@[path@],
    {
        proof {
            use_type_invariant(self);
        }
        let ghost pairs = field_pairs(self.fields@);
        match find_key(&self.fields, path) {
            Some(i) => {
                proof {
                    assert(pairs[i as int].0 == path@);
                    lemma_pairs_map_at(pairs, i as int);
                }
                Some(&self.fields[i].1)
            },
            None => {
                proof {
                    if has_key(pairs, path@) {
                        let j = key_index(pairs, path@);
                        assert(self.fields@[j].0@ == path@);
                    }
                }
                None
            },
        }
    }

    /// All fields of the event, each path once; together they are the event.
    pub fn all_fields(&self) -> (r: &Vec<(String, Value)>)
        ensures
            distinct_keys(field_pairs(r@)),
            pairs_map(field_pairs(r@)) == self@,
    {
        proof {
            use_type_invariant(self);
        }
        &self.fields
    }
}

/// The tags of a metric as texts.
pub open spec fn tag_pairs(s: Seq<(String, String)>) -> Seq<(Seq<char>, Seq<char>)> {
    s.map_values(|p: (String, String)| (p.0@, p.1@))
}

/// Tags of a metric: texts stored under names, each name at most once.
#[derive(Debug)]
pub struct MetricTags {
    tags: Vec<(String, String)>,
}

impl View for MetricTags {
    type V = Map<Seq<char>, Seq<char>>;

    closed spec fn view(&self) -> Map<Seq<char>, Seq<char>> {
        pairs_map(tag_pairs(self.tags@))
    }
}

impl MetricTags {
    #[verifier::type_invariant]
    spec fn names_distinct(self) -> bool {
        distinct_keys(tag_pairs(self.tags@))
    }

    /// No tags.
    pub fn new() -> (r: MetricTags)
        ensures
            r@ == Map::<Seq<char>, Seq<char>>::empty(),
    {
        let tags: Vec<(String, String)> = Vec::new();
        assert(tag_pairs(tags@) =~= Seq::<(Seq<char>, Seq<char>)>::empty());
        let r = MetricTags { tags };
        assert(r@ =~= Map::<Seq<char>, Seq<char>>::empty());
        r
    }

    /// Sets tag `name` to `value`, replacing what was there.
    pub fn insert(&mut self, name: String, value: String)
        ensures
            final(self)@ == old(self)@.insert(name@, value@),
    {
        proof {
            use_type_invariant(&*self);
        }
        let ghost before = tag_pairs(self.tags@);
        match find_key(&self.tags, name.as_str()) {
            Some(i) => {
                proof {
                    assert(before[i as int].0 == name@);
                    lemma_pairs_map_update(before, i as int, value@);
                }
                let ghost v = value@;
                let mut tags: Vec<(String, String)> = Vec::new();
                std::mem::swap(&mut tags, &mut self.tags);
                tags.set(i, (name, value));
                proof {
                    assert(tag_pairs(tags@) =~= before.update(i as int, (before[i as int].0, v)));
                }
                self.tags = tags;
            },
            None => {
                proof {
                    assert(!has_key(before, name@)) by {
                        if has_key(before, name@) {
                            let j = key_index(before, name@);
                            assert(self.tags@[j].0@ == name@);
                        }
                    }
                    lemma_pairs_map_push(before, name@, value@);
                }
                let ghost n = name@;
                let ghost v = value@;
                let mut tags: Vec<(String, String)> = Vec::new();
                std::mem::swap(&mut tags, &mut self.tags);
                tags.push((name, value));
                proof {
                    assert(tag_pairs(tags@) =~= before.push((n, v)));
                }
                self.tags = tags;
            },
        }
    }

    /// The value of tag `name`, if the metric has it.
    pub fn get(&self, name: &str) -> (r: Option<&String>)
        ensures
            r is Some <==> self@.contains_key(name@),
            r matches Some(v) ==> v@ == self@[name@],
    {
        proof {
            use_type_invariant(self);
        }
        let ghost pairs = tag_pairs(self.tags@);
        match find_key(&self.tags, name) {
            Some(i) => {
                proof {
                    assert(pairs[i as int].0 == name@);
                    lemma_pairs_map_at(pairs, i as int);
                }
                Some(&self.tags[i].1)
            },
            None => {
                proof {
                    if has_key(pairs, name@) {
                        let j = key_index(pairs, name@);
                        assert(self.tags@[j].0@ == name@);
                    }
                }
                None
            },
        }
    }

    /// All tags, each name once; together they are the tags.
    pub fn entries(&self) -> (r: &Vec<(String, String)>)
        ensures
            distinct_keys(tag_pairs(r@)),
            pairs_map(tag_pairs(r@)) == self@,
    {
        proof {
            use_type_invariant(self);
        }
        &self.tags
    }

    /// How many tags there are.
    pub fn len(&self) -> (r: usize)
        ensures
            r == self@.len(),
    {
        proof {
            use_type_invariant(self);
            lemma_pairs_map_len(tag_pairs(self.tags@));
        }
        self.tags.len()
    }

    /// A copy of the tags.
    pub fn duplicate(&self) -> (r: MetricTags)
        ensures
            r@ == self@,
    {
        proof {
            use_type_invariant(self);
        }
        let mut tags: Vec<(String, String)> = Vec::new();
        let mut i: usize = 0;
        while i < self.tags.len()
            invariant
                0 <= i <= self.tags@.len(),
                tag_pairs(tags@) == tag_pairs(self.tags@).take(i as int),
            decreases self.tags.len() - i,
        {
            let name = self.tags[i].0.clone();
            let value = self.tags[i].1.clone();
            let ghost prior = tags@;
            tags.push((name, value));
            proof {
                assert(tags@ == prior.push(self.tags@[i as int]));
                assert(tag_pairs(tags@) =~= tag_pairs(prior).push(tag_pairs(self.tags@)[i as int]));
                assert(tag_pairs(tags@) =~= tag_pairs(self.tags@).take(i + 1));
            }
            i = i + 1;
        }
        proof {
            assert(tag_pairs(tags@) =~= tag_pairs(self.tags@));
        }
        MetricTags { tags }
    }

    /// Whether there are no tags.
    pub fn is_empty(&self) -> (r: bool)
        ensures
            r == (self@.len() == 0),
    {
        self.len() == 0
    }
}

/// Whether a metric is a delta or a current value.
#[derive(Clone, Copy, Debug, PartialEq, Eq, Structural)]
pub enum MetricKind {
    Incremental,
    Absolute,
}

/// A histogram bucket: its upper limit (binary64 bits) and how many samples fell in it.
#[derive(Clone, Copy, Debug)]
pub struct Bucket {
    pub upper_limit: u64,
    pub count: u32,
}

/// A summary quantile (binary64 bits) and its value (binary64 bits).
#[derive(Clone, Copy, Debug)]
pub struct Quantile {
    pub quantile: u64,
    pub value: u64,
}

/// The value of a metric; every floating-point number is held as binary64 bits.
/// `Distinct` is the set of distinct texts seen.
#[derive(Debug)]
pub enum MetricValue {
    Counter { value: u64 },
    Gauge { value: u64 },
    Distinct { values: Vec<String> },
    AggregatedHistogram { buckets: Vec<Bucket>, count: u32, sum: u64 },
    AggregatedSummary { quantiles: Vec<Quantile>, count: u32, sum: u64 },
}

/// The texts of a sequence of strings.
pub open spec fn texts(s: Seq<String>) -> Seq<Seq<char>> {
    s.map_values(|x: String| x@)
}

/// A metric value with its sequences as sequences.
pub enum MetricValueView {
    Counter { value: u64 },
    Gauge { value: u64 },
    Distinct { values: Seq<Seq<char>> },
    AggregatedHistogram { buckets: Seq<Bucket>, count: u32, sum: u64 },
    AggregatedSummary { quantiles: Seq<Quantile>, count: u32, sum: u64 },
}

impl View for MetricValue {
    type V = MetricValueView;

    open spec fn view(&self) -> MetricValueView {
        match self {
            MetricValue::Counter { value } => MetricValueView::Counter { value: *value },
            MetricValue::Gauge { value } => MetricValueView::Gauge { value: *value },
            MetricValue::Distinct { values } => MetricValueView::Distinct { values: texts(values@) },
            MetricValue::AggregatedHistogram { buckets, count, sum } => MetricValueView::AggregatedHistogram {
                buckets: buckets@,
                count: *count,
                sum: *sum,
            },
            MetricValue::AggregatedSummary { quantiles, count, sum } => MetricValueView::AggregatedSummary {
                quantiles: quantiles@,
                count: *count,
                sum: *sum,
            },
        }
    }
}

/// A metric as texts, maps and plain values.
pub struct MetricView {
    pub name: Seq<char>,
    pub namespace: Option<Seq<char>>,
    pub tags: Option<Map<Seq<char>, Seq<char>>>,
    pub timestamp: Option<(i64, u32)>,
    pub kind: MetricKind,
    pub value: MetricValueView,
}

/// A metric event.
#[derive(Debug)]
pub struct Metric {
    pub name: String,
    pub namespace: Option<String>,
    pub tags: Option<MetricTags>,
    pub timestamp: Option<Timestamp>,
    pub kind: MetricKind,
    pub value: MetricValue,
}

impl View for Metric {
    type V = MetricView;

    open spec fn view(&self) -> MetricView {
        MetricView {
            name: self.name@,
            namespace: match self.namespace {
                Some(n) => Some(n@),
                None => None,
            },
            tags: match self.tags {
                Some(t) => Some(t@),
                None => None,
            },
            timestamp: match self.timestamp {
                Some(t) => Some(t@),
                None => None,
            },
            kind: self.kind,
            value: self.value@,
        }
    }
}

impl Metric {
    /// A metric with the given name, kind and value, and no namespace, tags or time.
    pub fn new(name: String, kind: MetricKind, value: MetricValue) -> (r: Metric)
        ensures
            r.name == name,
            r.namespace is None,
            r.tags is None,
            r.timestamp is None,
            r.kind == kind,
            r.value == value,
    {
        Metric { name, namespace: None, tags: None, timestamp: None, kind, value }
    }

    /// The same metric in the given namespace.
    pub fn with_namespace(self, namespace: Option<String>) -> (r: Metric)
        ensures
            r == (Metric { namespace, ..self }),
    {
        Metric { namespace, ..self }
    }

    /// The same metric with the given tags.
    pub fn with_tags(self, tags: Option<MetricTags>) -> (r: Metric)
        ensures
            r == (Metric { tags, ..self }),
    {
        Metric { tags, ..self }
    }

    /// The same metric at the given time.
    pub fn with_timestamp(self, timestamp: Option<Timestamp>) -> (r: Metric)
        ensures
            r == (Metric { timestamp, ..self }),
    {
        Metric { timestamp, ..self }
    }

    /// The value of tag `name`, if the metric has tags and that one among them.
    pub fn tag_value(&self, name: &str) -> (r: Option<String>)
        ensures
            r is Some <==> (self.tags matches Some(t) && t@.contains_key(name@)),
            r matches Some(v) ==> v@ == self.tags->0@[name@],
    {
        match &self.tags {
            Some(tags) => match tags.get(name) {
                Some(v) => Some(v.clone()),
                None => None,
            },
            None => None,
        }
    }
}

/// An event flowing into a sink.
#[derive(Debug)]
pub enum Event {
    Log(LogEvent),
    Metric(Metric),
}

/// The field paths under which log events carry their host, message and time.
#[derive(Debug)]
pub struct LogSchema {
    pub host_key: String,
    pub message_key: String,
    pub timestamp_key: String,
}

impl Default for LogSchema {
    /// `host`, `message` and `timestamp`.
    fn default() -> (r: LogSchema)
        ensures
            r.host_key@ == "host"@,
            r.message_key@ == "message"@,
            r.timestamp_key@ == "timestamp"@,
    {
        LogSchema {
            host_key: String::from_str("host"),
            message_key: String::from_str("message"),
            timestamp_key: String::from_str("timestamp"),
        }
    }
}

} // verus!
