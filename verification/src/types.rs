//! The values that travel between the scanner, the decoder and the cache.

use vstd::prelude::*;
use crate::search::{first_where, lemma_first_where};

verus! {

/// An instant: whole seconds since 1970-01-01T00:00:00Z and the nanoseconds
/// past that second. During a leap second `nanos` runs past 999,999,999.
#[derive(Clone, Copy, Debug, PartialEq, Eq, Structural)]
pub struct Timestamp {
    pub secs: i64,
    pub nanos: u32,
}

impl Timestamp {
    /// Whether `self` lies strictly later than `other`.
    pub open spec fn spec_is_after(self, other: Timestamp) -> bool {
        self.secs > other.secs || (self.secs == other.secs && self.nanos > other.nanos)
    }

    /// The instant that stands in for a creation time that could not be read.
    pub open spec fn spec_epoch() -> Timestamp {
        Timestamp { secs: 0, nanos: 0 }
    }

    /// The instant `nanos` nanoseconds past the second `secs`.
    pub fn new(secs: i64, nanos: u32) -> (t: Timestamp)
        ensures
            t == (Timestamp { secs, nanos }),
    {
        Timestamp { secs, nanos }
    }

    /// 1970-01-01T00:00:00Z.
    #[verifier::when_used_as_spec(spec_epoch)]
    pub fn epoch() -> (t: Timestamp)
        ensures
            t == Timestamp::spec_epoch(),
    {
        Timestamp { secs: 0, nanos: 0 }
    }

    /// Whether `self` lies strictly later than `other`.
    #[verifier::when_used_as_spec(spec_is_after)]
    pub fn is_after(self, other: Timestamp) -> (r: bool)
        ensures
            r == self.spec_is_after(other),
    {
        self.secs > other.secs || (self.secs == other.secs && self.nanos > other.nanos)
    }
}

/// The instant that an RFC 3339 date and time denotes, as chrono reads it;
/// `None` for a text that chrono does not accept.
pub uninterp spec fn rfc3339_instant(text: Seq<char>) -> Option<Timestamp>;

/// Calls `chrono::DateTime::parse_from_rfc3339` and takes the instant out of
/// what it returns, with `timestamp` and `timestamp_subsec_nanos`. The parse
/// depends on the text alone; nothing is claimed here of which texts it
/// accepts.
#[verifier::external_body]
fn chrono_parse_rfc3339(text: &str) -> (r: Option<Timestamp>)
    ensures
        r == rfc3339_instant(text@),
{
    match chrono::DateTime::parse_from_rfc3339(text) {
        Ok(d) => Some(Timestamp { secs: d.timestamp(), nanos: d.timestamp_subsec_nanos() }),
        Err(_) => None,
    }
}

/// Calls `chrono::Local::now`, and hands back the instant it returns together
/// with its RFC 3339 text in the local zone, from `to_rfc3339`. The clock and
/// the zone decide the result, so nothing is claimed of it.
#[verifier::external_body]
fn chrono_local_now() -> (Timestamp, String) {
    let now = chrono::Local::now();
    (Timestamp { secs: now.timestamp(), nanos: now.timestamp_subsec_nanos() }, now.to_rfc3339())
}

impl Timestamp {
    /// Reads an RFC 3339 date and time, such as `1996-12-19T16:39:57-08:00`.
    pub fn parse_rfc3339(text: &str) -> (r: Option<Timestamp>)
        ensures
            r == rfc3339_instant(text@),
    {
        chrono_parse_rfc3339(text)
    }

    /// The wall-clock time of the call.
    pub fn now() -> Timestamp {
        chrono_local_now().0
    }

    /// The wall-clock time of the call, as RFC 3339 text in the local zone.
    pub fn now_rfc3339() -> String {
        chrono_local_now().1
    }
}

/// A run parameter's value. A floating-point value is held by its IEEE 754
/// binary64 bit pattern, so that it is carried through unchanged.
#[derive(Clone, Debug)]
pub enum ParamValue {
    Int(i64),
    Float(u64),
    Text(String),
}

/// What a `ParamValue` is, with its text as a sequence of characters.
pub enum ParamValueView {
    Int(i64),
    Float(u64),
    Text(Seq<char>),
}

impl View for ParamValue {
    type V = ParamValueView;

    open spec fn view(&self) -> ParamValueView {
        match self {
            ParamValue::Int(i) => ParamValueView::Int(*i),
            ParamValue::Float(bits) => ParamValueView::Float(*bits),
            ParamValue::Text(s) => ParamValueView::Text(s@),
        }
    }
}

impl ParamValue {
    /// A copy with the same view.
    pub fn duplicate(&self) -> (r: ParamValue)
        ensures
            r@ == self@,
    {
        match self {
            ParamValue::Int(i) => ParamValue::Int(*i),
            ParamValue::Float(bits) => ParamValue::Float(*bits),
            ParamValue::Text(s) => ParamValue::Text(s.clone()),
        }
    }
}

/// One named parameter.
#[derive(Clone, Debug)]
pub struct Parameter {
    pub name: String,
    pub value: ParamValue,
}

/// A `Parameter` as a value.
pub struct ParameterView {
    pub name: Seq<char>,
    pub value: ParamValueView,
}

impl View for Parameter {
    type V = ParameterView;

    open spec fn view(&self) -> ParameterView {
        ParameterView { name: self.name@, value: self.value@ }
    }
}

/// The position of the parameter called `name` in `s`, if there is one.
pub open spec fn position_of(s: Seq<ParameterView>, name: Seq<char>) -> Option<int> {
    first_where(s, |p: ParameterView| p.name == name)
}

/// No name occurs twice in `s`.
pub open spec fn unique_names(s: Seq<ParameterView>) -> bool {
    forall|i: int, j: int| 0 <= i < j < s.len() ==> s[i].name != s[j].name
}

/// The value that `s` gives to `name`.
pub open spec fn value_of(s: Seq<ParameterView>, name: Seq<char>) -> Option<ParamValueView> {
    match position_of(s, name) {
        Some(i) => Some(s[i].value),
        None => None,
    }
}

/// `s` after `name` was set to `value`: the parameter keeps its place if it
/// was there, and is added at the end if not.
pub open spec fn with_value(s: Seq<ParameterView>, name: Seq<char>, value: ParamValueView) -> Seq<
    ParameterView,
> {
    match position_of(s, name) {
        Some(i) => s.update(i, ParameterView { name, value }),
        None => s.push(ParameterView { name, value }),
    }
}

/// What `position_of` finds: the first place that holds `name`, or nothing
/// where no place does.
pub proof fn lemma_position_of(s: Seq<ParameterView>, name: Seq<char>)
    ensures
        match position_of(s, name) {
            Some(i) => 0 <= i < s.len() && s[i].name == name && forall|j: int|
                0 <= j < i ==> s[j].name != name,
            None => forall|j: int| 0 <= j < s.len() ==> s[j].name != name,
        },
{
    lemma_first_where(s, |p: ParameterView| p.name == name);
}

/// Setting a value keeps the names unique.
pub proof fn lemma_with_value_unique(s: Seq<ParameterView>, name: Seq<char>, value: ParamValueView)
    requires
        unique_names(s),
    ensures
        unique_names(with_value(s, name, value)),
        value_of(with_value(s, name, value), name) == Some(value),
{
    lemma_position_of(s, name);
    let t = with_value(s, name, value);
    lemma_position_of(t, name);
    match position_of(s, name) {
        Some(i) => {
            assert(t[i].name == name);
        },
        None => {
            assert(t[s.len() as int].name == name);
        },
    }
}

/// Setting a value leaves the values of all other names as they were.
pub proof fn lemma_with_value_elsewhere(
    s: Seq<ParameterView>,
    name: Seq<char>,
    value: ParamValueView,
    other: Seq<char>,
)
    requires
        other != name,
    ensures
        value_of(with_value(s, name, value), other) == value_of(s, other),
{
    let t = with_value(s, name, value);
    lemma_position_of(s, name);
    lemma_position_of(s, other);
    lemma_position_of(t, other);
    match position_of(s, other) {
        Some(i) => {
            assert(t[i] == s[i]);
            match position_of(t, other) {
                Some(k) => {
                    if k < i {
                        assert(t[k] == s[k]);
                    }
                },
                None => {},
            }
        },
        None => {
            match position_of(t, other) {
                Some(k) => {
                    if k < s.len() {
                        assert(t[k].name == s[k].name);
                    }
                },
                None => {},
            }
        },
    }
}

/// What a list of settings amounts to when they are applied in turn: a later
/// value of a name replaces the earlier one, in its place.
pub open spec fn settings_applied(list: Seq<ParameterView>) -> Seq<ParameterView>
    decreases list.len(),
{
    if list.len() == 0 {
        Seq::empty()
    } else {
        with_value(settings_applied(list.drop_last()), list.last().name, list.last().value)
    }
}

/// The run parameters of one entry: each name at most once, in the order in
/// which the names were first set.
#[derive(Debug)]
pub struct Parameters {
    entries: Vec<Parameter>,
}

impl View for Parameters {
    type V = Seq<ParameterView>;

    closed spec fn view(&self) -> Seq<ParameterView> {
        self.entries@.map_values(|p: Parameter| p@)
    }
}

impl Parameters {
    /// Each name occurs once. Every `Parameters` that the library makes is
    /// well formed, and its methods keep it so.
    pub open spec fn wf(&self) -> bool {
        unique_names(self@)
    }

    /// No parameters.
    pub fn new() -> (r: Parameters)
        ensures
            r@ == Seq::<ParameterView>::empty(),
            r.wf(),
    {
        assert(Seq::<Parameter>::empty().map_values(|p: Parameter| p@) =~= Seq::<
            ParameterView,
        >::empty());
        Parameters { entries: Vec::new() }
    }

    /// How many parameters there are.
    pub fn len(&self) -> (n: usize)
        ensures
            n == self@.len(),
    {
        self.entries.len()
    }

    /// The parameter at place `i`.
    pub fn at(&self, i: usize) -> (p: &Parameter)
        requires
            i < self@.len(),
        ensures
            p@ == self@[i as int],
    {
        &self.entries[i]
    }

    /// The place of `name`, if it is set.
    pub fn position(&self, name: &str) -> (r: Option<usize>)
        ensures
            match r {
                Some(i) => position_of(self@, name@) == Some(i as int),
                None => position_of(self@, name@) is None,
            },
    {
        let mut i: usize = 0;
        while i < self.entries.len()
            invariant
                i <= self.entries.len(),
                forall|j: int| 0 <= j < i ==> self@[j].name != name@,
            decreases self.entries.len() - i,
        {
            if self.entries[i].name.as_str().eq(name) {
                proof {
                    lemma_position_of(self@, name@);
                    assert(self@[i as int].name == name@);
                }
                return Some(i);
            }
            i += 1;
        }
        proof {
            lemma_position_of(self@, name@);
        }
        None
    }

    /// The value of `name`, if it is set.
    pub fn get(&self, name: &str) -> (r: Option<&ParamValue>)
        ensures
            match r {
                Some(v) => value_of(self@, name@) == Some(v@),
                None => value_of(self@, name@) is None,
            },
    {
        match self.position(name) {
            Some(i) => {
                proof {
                    lemma_position_of(self@, name@);
                }
                Some(&self.entries[i].value)
            },
            None => None,
        }
    }

    /// Sets `name` to `value`. A name that was set keeps its place.
    pub fn insert(&mut self, name: String, value: ParamValue)
        requires
            old(self).wf(),
        ensures
            final(self)@ == with_value(old(self)@, name@, value@),
            final(self).wf(),
    {
        proof {
            lemma_with_value_unique(self@, name@, value@);
            lemma_position_of(self@, name@);
        }
        let ghost target = with_value(self@, name@, value@);
        match self.position(name.as_str()) {
            Some(i) => {
                assert(self.entries@.update(i as int, Parameter { name, value }).map_values(
                    |p: Parameter| p@,
                ) =~= target);
                self.entries.set(i, Parameter { name, value });
            },
            None => {
                assert(self.entries@.push(Parameter { name, value }).map_values(
                    |p: Parameter| p@,
                ) =~= target);
                self.entries.push(Parameter { name, value });
            },
        }
    }

    /// The parameters that `list` sets, applied in turn.
    pub fn from_list(list: &Vec<Parameter>) -> (r: Parameters)
        ensures
            r@ == settings_applied(list@.map_values(|p: Parameter| p@)),
            r.wf(),
    {
        let ghost all = list@.map_values(|p: Parameter| p@);
        let mut r = Parameters::new();
        let mut i: usize = 0;
        while i < list.len()
            invariant
                i <= list.len(),
                all == list@.map_values(|p: Parameter| p@),
                r.wf(),
                r@ == settings_applied(all.take(i as int)),
            decreases list.len() - i,
        {
            assert(all.take(i + 1).drop_last() =~= all.take(i as int));
            r.insert(list[i].name.clone(), list[i].value.duplicate());
            i += 1;
        }
        assert(all.take(i as int) =~= all);
        r
    }

    /// A copy with the same view.
    pub fn duplicate(&self) -> (r: Parameters)
        ensures
            r@ == self@,
    {
        let mut entries: Vec<Parameter> = Vec::new();
        let mut i: usize = 0;
        while i < self.entries.len()
            invariant
                i <= self.entries.len(),
                entries@.len() == i,
                forall|j: int| 0 <= j < i ==> entries@[j]@ == self.entries@[j]@,
            decreases self.entries.len() - i,
        {
            let p = &self.entries[i];
            entries.push(Parameter { name: p.name.clone(), value: p.value.duplicate() });
            i += 1;
        }
        assert(entries@.map_values(|p: Parameter| p@) =~= self@);
        Parameters { entries }
    }
}


/// What the attributes of a result container say of its entry.
#[derive(Debug)]
pub struct MetaData {
    pub created_at: Timestamp,
    pub description: String,
    pub status: String,
    pub submitted: bool,
}

/// A `MetaData` as a value.
pub struct MetaDataView {
    pub created_at: Timestamp,
    pub description: Seq<char>,
    pub status: Seq<char>,
    pub submitted: bool,
}

impl View for MetaData {
    type V = MetaDataView;

    open spec fn view(&self) -> MetaDataView {
        MetaDataView {
            created_at: self.created_at,
            description: self.description@,
            status: self.status@,
            submitted: self.submitted,
        }
    }
}

impl MetaData {
    /// A copy with the same view.
    pub fn duplicate(&self) -> (r: MetaData)
        ensures
            r@ == self@,
    {
        MetaData {
            created_at: self.created_at,
            description: self.description.clone(),
            status: self.status.clone(),
            submitted: self.submitted,
        }
    }
}

/// Who created a collection.
#[derive(Debug)]
pub struct Author {
    pub name: String,
    pub email: String,
}

/// An `Author` as a value.
pub struct AuthorView {
    pub name: Seq<char>,
    pub email: Seq<char>,
}

impl View for Author {
    type V = AuthorView;

    open spec fn view(&self) -> AuthorView {
        AuthorView { name: self.name@, email: self.email@ }
    }
}

/// What a marker file records of its collection.
#[derive(Debug)]
pub struct MetaFile<'a> {
    pub uid: &'a str,
    pub created: &'a str,
    pub author: Option<Author>,
}

/// A `MetaFile` as a value.
pub struct MetaFileView {
    pub uid: Seq<char>,
    pub created: Seq<char>,
    pub author: Option<AuthorView>,
}

impl<'a> View for MetaFile<'a> {
    type V = MetaFileView;

    open spec fn view(&self) -> MetaFileView {
        MetaFileView {
            uid: self.uid@,
            created: self.created@,
            author: match self.author {
                Some(a) => Some(a@),
                None => None,
            },
        }
    }
}

} // verus!
