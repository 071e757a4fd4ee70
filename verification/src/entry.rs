//! The attribute decoder: from what was read out of a result container to the
//! entry's metadata and run parameters.

use vstd::prelude::*;
use vstd::string::*;
use crate::text::opt_text;
use crate::types::{
    lemma_with_value_elsewhere, lemma_with_value_unique, rfc3339_instant, unique_names, value_of,
    with_value, MetaData, MetaDataView, ParamValue, ParamValueView, Parameters, ParameterView,
    Timestamp,
};

verus! {

/// What the three reads of one attribute gave: as an integer, as a
/// floating-point number (its binary64 bit pattern), and as text. A read that
/// failed is `None`.
#[derive(Debug)]
pub struct RawAttr {
    pub int: Option<i64>,
    pub float: Option<u64>,
    pub text: Option<String>,
}

/// A `RawAttr` as a value.
pub struct RawAttrView {
    pub int: Option<i64>,
    pub float: Option<u64>,
    pub text: Option<Seq<char>>,
}

impl View for RawAttr {
    type V = RawAttrView;

    open spec fn view(&self) -> RawAttrView {
        RawAttrView { int: self.int, float: self.float, text: opt_text(self.text) }
    }
}

/// One attribute of the parameter namespace. `attr` is `None` where the
/// attribute was listed but could not be opened.
#[derive(Debug)]
pub struct RawParameter {
    pub name: String,
    pub attr: Option<RawAttr>,
}

/// A `RawParameter` as a value.
pub struct RawParameterView {
    pub name: Seq<char>,
    pub attr: Option<RawAttrView>,
}

impl View for RawParameter {
    type V = RawParameterView;

    open spec fn view(&self) -> RawParameterView {
        RawParameterView {
            name: self.name@,
            attr: match self.attr {
                Some(a) => Some(a@),
                None => None,
            },
        }
    }
}

/// What was read out of one result container. A top-level attribute that is
/// absent or unreadable is `None`; so is the parameter namespace where it is
/// missing or its names cannot be listed.
#[derive(Debug)]
pub struct RawEntry {
    pub created_at: Option<String>,
    pub description: Option<String>,
    pub status: Option<String>,
    pub submitted: Option<bool>,
    pub parameters: Option<Vec<RawParameter>>,
}

/// A `RawEntry` as a value.
pub struct RawEntryView {
    pub created_at: Option<Seq<char>>,
    pub description: Option<Seq<char>>,
    pub status: Option<Seq<char>>,
    pub submitted: Option<bool>,
    pub parameters: Option<Seq<RawParameterView>>,
}

impl View for RawEntry {
    type V = RawEntryView;

    open spec fn view(&self) -> RawEntryView {
        RawEntryView {
            created_at: opt_text(self.created_at),
            description: opt_text(self.description),
            status: opt_text(self.status),
            submitted: self.submitted,
            parameters: match self.parameters {
                Some(v) => Some(v@.map_values(|p: RawParameter| p@)),
                None => None,
            },
        }
    }
}

/// The string that the JSON object `text` holds under `key`; `None` where
/// `text` is no JSON, no object, has no such member, or holds something other
/// than a string there.
pub uninterp spec fn json_string_member(text: Seq<char>, key: Seq<char>) -> Option<Seq<char>>;

/// Calls `serde_json::from_str` for a `serde_json::Value` and `Value::get` with
/// `key` on the result, and copies the string found there. What comes back
/// depends on `text` and `key` alone.
#[verifier::external_body]
fn serde_json_string_member(text: &str, key: &str) -> (r: Option<String>)
    ensures
        opt_text(r) == json_string_member(text@, key@),
{
    let value: serde_json::Value = match serde_json::from_str(text) {
        Ok(v) => v,
        Err(_) => return None,
    };
    match value.get(key) {
        Some(serde_json::Value::String(s)) => Some(s.clone()),
        _ => None,
    }
}

/// The type tag of a tagged date and time.
pub open spec fn datetime_tag() -> Seq<char> {
    "datetime"@
}

/// The instant of a tagged value, given its tag and the two readings of its
/// text: as it stands, and with the UTC marker appended. The first reading
/// that succeeded counts, and only under the tag of a date and time.
pub open spec fn spec_tagged_datetime(
    tag: Seq<char>,
    strict: Option<Timestamp>,
    marked: Option<Timestamp>,
) -> Option<Timestamp> {
    if tag != datetime_tag() {
        None
    } else if strict is Some {
        strict
    } else {
        marked
    }
}

/// The instant that a tagged date and time denotes: a JSON object
/// `{"__type__": "datetime", "__value__": <text>}` whose text is an RFC 3339
/// date and time, with or without its zone.
pub open spec fn spec_parse_datetime_field(val: Seq<char>) -> Option<Timestamp> {
    match (json_string_member(val, "__type__"@), json_string_member(val, "__value__"@)) {
        (Some(tag), Some(value)) => spec_tagged_datetime(
            tag,
            rfc3339_instant(value),
            rfc3339_instant(value + "Z"@),
        ),
        _ => None,
    }
}

/// The instant of a tagged value, given its tag and the two readings of its
/// text.
pub fn tagged_datetime(tag: &str, strict: Option<Timestamp>, marked: Option<Timestamp>) -> (r:
    Option<Timestamp>)
    ensures
        r == spec_tagged_datetime(tag@, strict, marked),
{
    if !tag.eq("datetime") {
        None
    } else if strict.is_some() {
        strict
    } else {
        marked
    }
}

/// The instant that a tagged date and time denotes, if `val` is one.
pub fn parse_datetime_field(val: &str) -> (r: Option<Timestamp>)
    ensures
        r == spec_parse_datetime_field(val@),
{
    let tag = serde_json_string_member(val, "__type__");
    let value = serde_json_string_member(val, "__value__");
    match (tag, value) {
        (Some(tag), Some(value)) => {
            let strict = Timestamp::parse_rfc3339(value.as_str());
            let marked = if strict.is_none() {
                let with_marker = value.concat("Z");
                Timestamp::parse_rfc3339(with_marker.as_str())
            } else {
                None
            };
            tagged_datetime(tag.as_str(), strict, marked)
        },
        _ => None,
    }
}

/// The typed value of an attribute: the integer reading where there is one,
/// else the floating-point reading, else the text; nothing where all three
/// reads failed.
pub open spec fn spec_decode_value(a: RawAttrView) -> Option<ParamValueView> {
    match a.int {
        Some(i) => Some(ParamValueView::Int(i)),
        None => match a.float {
            Some(bits) => Some(ParamValueView::Float(bits)),
            None => match a.text {
                Some(s) => Some(ParamValueView::Text(s)),
                None => None,
            },
        },
    }
}

/// The typed value of an attribute, by the fixed order of its readings:
/// integer, then floating point, then text.
pub fn decode_value(a: &RawAttr) -> (r: Option<ParamValue>)
    ensures
        match r {
            Some(v) => spec_decode_value(a@) == Some(v@),
            None => spec_decode_value(a@) is None,
        },
{
    match a.int {
        Some(i) => Some(ParamValue::Int(i)),
        None => match a.float {
            Some(bits) => Some(ParamValue::Float(bits)),
            None => match &a.text {
                Some(s) => Some(ParamValue::Text(s.clone())),
                None => None,
            },
        },
    }
}

/// An attribute that reads as an integer is decoded as an integer, whatever
/// its other readings are.
pub proof fn lemma_integer_reading_wins(a: RawAttrView)
    requires
        a.int is Some,
    ensures
        spec_decode_value(a) == Some(ParamValueView::Int(a.int->0)),
{
}

/// A floating-point reading counts only where the integer reading failed, and
/// the text only where both failed.
pub proof fn lemma_probe_order(a: RawAttrView)
    ensures
        spec_decode_value(a) matches Some(ParamValueView::Float(bits)) ==> a.int is None && a.float
            == Some(bits),
        spec_decode_value(a) matches Some(ParamValueView::Text(s)) ==> a.int is None && a.float is None
            && a.text == Some(s),
        spec_decode_value(a) is None <==> a.int is None && a.float is None && a.text is None,
{
}

/// The parameters that a namespace decodes to: each attribute in turn sets its
/// name to its typed value, an attribute of no supported type is passed over,
/// and one that could not be opened fails the whole namespace.
pub open spec fn spec_decode_parameters(raw: Seq<RawParameterView>) -> Option<Seq<ParameterView>>
    decreases raw.len(),
{
    if raw.len() == 0 {
        Some(Seq::empty())
    } else {
        match (spec_decode_parameters(raw.drop_last()), raw.last().attr) {
            (Some(acc), Some(a)) => match spec_decode_value(a) {
                Some(v) => Some(with_value(acc, raw.last().name, v)),
                None => Some(acc),
            },
            _ => None,
        }
    }
}

/// The parameters that the attributes of a namespace decode to.
pub fn decode_parameters(raw: &Vec<RawParameter>) -> (r: Option<Parameters>)
    ensures
        match r {
            Some(p) => spec_decode_parameters(raw@.map_values(|p: RawParameter| p@)) == Some(p@)
                && p.wf(),
            None => spec_decode_parameters(raw@.map_values(|p: RawParameter| p@)) is None,
        },
{
    let ghost all = raw@.map_values(|p: RawParameter| p@);
    let mut params = Parameters::new();
    let mut i: usize = 0;
    while i < raw.len()
        invariant
            i <= raw.len(),
            all == raw@.map_values(|p: RawParameter| p@),
            params.wf(),
            spec_decode_parameters(all.take(i as int)) == Some(params@),
        decreases raw.len() - i,
    {
        let ghost before = all.take(i as int);
        let ghost upto = all.take(i + 1);
        assert(upto.drop_last() =~= before);
        assert(upto.last() == raw@[i as int]@);
        match &raw[i].attr {
            None => {
                proof {
                    lemma_decode_parameters_fails_on(all, i as int);
                }
                return None;
            },
            Some(a) => {
                match decode_value(a) {
                    Some(v) => {
                        params.insert(raw[i].name.clone(), v);
                    },
                    None => {},
                }
            },
        }
        i += 1;
    }
    assert(all.take(i as int) =~= all);
    Some(params)
}

/// Once a part of a namespace fails to decode, the whole of it does.
pub proof fn lemma_decode_parameters_fails_on(raw: Seq<RawParameterView>, i: int)
    requires
        0 <= i < raw.len(),
        spec_decode_parameters(raw.take(i + 1)) is None,
    ensures
        spec_decode_parameters(raw) is None,
    decreases raw.len() - i,
{
    if i + 1 < raw.len() {
        assert(raw.take(i + 2).drop_last() =~= raw.take(i + 1));
        lemma_decode_parameters_fails_on(raw, i + 1);
    } else {
        assert(raw.take(i + 1) =~= raw);
    }
}

/// The parameters that a namespace decodes to keep each name once.
pub proof fn lemma_decode_parameters_unique(raw: Seq<RawParameterView>)
    ensures
        spec_decode_parameters(raw) matches Some(p) ==> unique_names(p),
    decreases raw.len(),
{
    if raw.len() > 0 {
        lemma_decode_parameters_unique(raw.drop_last());
        match (spec_decode_parameters(raw.drop_last()), raw.last().attr) {
            (Some(acc), Some(a)) => match spec_decode_value(a) {
                Some(v) => {
                    lemma_with_value_unique(acc, raw.last().name, v);
                },
                None => {},
            },
            _ => {},
        }
    }
}

/// Type-probe determinism for a whole namespace: where the namespace decodes
/// and the attribute at `j` reads as an integer, its name has that integer as
/// its value, whatever the attribute's other readings are, unless a later
/// attribute of the same name and of a supported type replaces it.
pub proof fn lemma_integer_parameter_is_decoded_as_integer(raw: Seq<RawParameterView>, j: int)
    requires
        0 <= j < raw.len(),
        spec_decode_parameters(raw) is Some,
        raw[j].attr is Some,
        raw[j].attr->0.int is Some,
        forall|k: int|
            j < k < raw.len() && (#[trigger] raw[k]).name == raw[j].name ==> spec_decode_value(
                raw[k].attr->0,
            ) is None,
    ensures
        value_of(spec_decode_parameters(raw)->0, raw[j].name) == Some(
            ParamValueView::Int(raw[j].attr->0.int->0),
        ),
    decreases raw.len(),
{
    let rest = raw.drop_last();
    let last = raw.last();
    let acc = spec_decode_parameters(rest)->0;
    lemma_decode_parameters_unique(rest);
    if j == raw.len() - 1 {
        lemma_with_value_unique(acc, last.name, ParamValueView::Int(last.attr->0.int->0));
    } else {
        assert(rest[j] == raw[j]);
        assert forall|k: int|
            j < k < rest.len() && (#[trigger] rest[k]).name == rest[j].name implies spec_decode_value(
            rest[k].attr->0,
        ) is None by {
            assert(rest[k] == raw[k]);
        }
        lemma_integer_parameter_is_decoded_as_integer(rest, j);
        match spec_decode_value(last.attr->0) {
            Some(v) => {
                assert(raw[raw.len() - 1] == last);
                lemma_with_value_elsewhere(acc, last.name, v, raw[j].name);
            },
            None => {},
        }
    }
}

/// The entry that a container decodes to, given the instant read from its
/// `created_at` attribute. The description, the status, a readable
/// `created_at` and a parameter namespace are required. An instant that could
/// not be read is replaced by the epoch; `submitted` is false where absent.
pub open spec fn spec_assemble_entry(raw: RawEntryView, created: Option<Timestamp>) -> Option<
    (MetaDataView, Seq<ParameterView>),
> {
    match (raw.created_at, raw.description, raw.status, raw.parameters) {
        (Some(_), Some(description), Some(status), Some(attrs)) => match spec_decode_parameters(
            attrs,
        ) {
            Some(parameters) => Some(
                (
                    MetaDataView {
                        created_at: match created {
                            Some(t) => t,
                            None => Timestamp::spec_epoch(),
                        },
                        description,
                        status,
                        submitted: match raw.submitted {
                            Some(b) => b,
                            None => false,
                        },
                    },
                    parameters,
                ),
            ),
            None => None,
        },
        _ => None,
    }
}

/// The entry that a container decodes to.
pub open spec fn spec_load_entry_meta(raw: RawEntryView) -> Option<
    (MetaDataView, Seq<ParameterView>),
> {
    spec_assemble_entry(
        raw,
        match raw.created_at {
            Some(text) => spec_parse_datetime_field(text),
            None => None,
        },
    )
}

/// The entry that a container decodes to, given the instant read from its
/// `created_at` attribute.
pub fn assemble_entry(raw: &RawEntry, created: Option<Timestamp>) -> (r: Option<
    (MetaData, Parameters),
>)
    ensures
        match r {
            Some((meta, parameters)) => spec_assemble_entry(raw@, created) == Some(
                (meta@, parameters@),
            ) && parameters.wf(),
            None => spec_assemble_entry(raw@, created) is None,
        },
{
    if raw.created_at.is_none() {
        return None;
    }
    let description = match &raw.description {
        Some(s) => s.clone(),
        None => {
            return None;
        },
    };
    let status = match &raw.status {
        Some(s) => s.clone(),
        None => {
            return None;
        },
    };
    let submitted = match raw.submitted {
        Some(b) => b,
        None => false,
    };
    let created_at = match created {
        Some(t) => t,
        None => Timestamp::epoch(),
    };
    let attrs = match &raw.parameters {
        Some(v) => v,
        None => {
            return None;
        },
    };
    match decode_parameters(attrs) {
        Some(parameters) => Some((MetaData { created_at, description, status, submitted }, parameters)),
        None => None,
    }
}

/// The metadata and the parameters that a container decodes to; `None` where
/// a required attribute or the parameter namespace is missing or unreadable.
pub fn load_entry_meta(raw: &RawEntry) -> (r: Option<(MetaData, Parameters)>)
    ensures
        match r {
            Some((meta, parameters)) => spec_load_entry_meta(raw@) == Some((meta@, parameters@))
                && parameters.wf(),
            None => spec_load_entry_meta(raw@) is None,
        },
{
    let created = match &raw.created_at {
        Some(text) => parse_datetime_field(text.as_str()),
        None => None,
    };
    assemble_entry(raw, created)
}

} // verus!
