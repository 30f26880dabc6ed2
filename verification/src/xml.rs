//! Extraction of string entries from an Android `strings.xml` document.
//!
//! The document text is turned into a stream of structural events (the XML
//! parsing itself is done by the `xml` crate behind a trusted wrapper), and a
//! verified three-state machine walks that stream: it looks for the
//! `<resources>` root, then for `<string>` children, reads their `name` and
//! optional `description` attributes, and parses each element's text through
//! the value mini-language.

use vstd::prelude::*;
use vstd::string::*;

use crate::strutil::str_eq;
use crate::value::{spec_parse, ParseError, ParsedStringXmlValue, ValuePartModel};

verus! {

/// One structural event of an XML document, reduced to plain values.
#[derive(Debug, Clone, PartialEq)]
pub enum XmlEvent {
    ElementStart { name: String, attributes: Vec<(String, String)> },
    ElementEnd { name: String },
    Text(String),
    Other,
}

/// The mathematical shape of an event.
#[verifier::ext_equal]
pub enum XmlEventModel {
    ElementStart { name: Seq<char>, attributes: Seq<(Seq<char>, Seq<char>)> },
    ElementEnd { name: Seq<char> },
    Text(Seq<char>),
    Other,
}

/// The models of an attribute list.
pub open spec fn attrs_model(attrs: Seq<(String, String)>) -> Seq<(Seq<char>, Seq<char>)> {
    attrs.map_values(|a: (String, String)| (a.0@, a.1@))
}

impl View for XmlEvent {
    type V = XmlEventModel;

    open spec fn view(&self) -> XmlEventModel {
        match self {
            XmlEvent::ElementStart { name, attributes } => XmlEventModel::ElementStart {
                name: name@,
                attributes: attrs_model(attributes@),
            },
            XmlEvent::ElementEnd { name } => XmlEventModel::ElementEnd { name: name@ },
            XmlEvent::Text(s) => XmlEventModel::Text(s@),
            XmlEvent::Other => XmlEventModel::Other,
        }
    }
}

/// The models of an event list.
pub open spec fn events_model(events: Seq<XmlEvent>) -> Seq<XmlEventModel> {
    events.map_values(|e: XmlEvent| e@)
}

/// The structural event stream of a document text, or `None` when the text is
/// not well-formed XML. The stream depends on the text alone.
pub uninterp spec fn xml_events_of(doc: Seq<char>) -> Option<Seq<XmlEventModel>>;

/// Relies on `xml::EventReader`: parsing a document is a function of its text
/// alone; start and end tags, their local names and attributes, and character
/// data are reported as events in document order, and a syntax error ends the
/// stream with an error result.
#[verifier::external_body]
fn read_xml_events(doc: &str) -> (r: Option<Vec<XmlEvent>>)
    ensures
        match r {
            Some(events) => xml_events_of(doc@) == Some(events_model(events@)),
            None => xml_events_of(doc@) is None,
        },
{
    let mut out = Vec::new();
    for e in ::xml::EventReader::from_str(doc) {
        out.push(match e {
            Ok(::xml::reader::XmlEvent::StartElement { name, attributes, .. }) => XmlEvent::ElementStart {
                name: name.local_name,
                attributes: attributes.into_iter().map(|a| (a.name.local_name, a.value)).collect(),
            },
            Ok(::xml::reader::XmlEvent::EndElement { name }) => XmlEvent::ElementEnd { name: name.local_name },
            Ok(::xml::reader::XmlEvent::Characters(s)) => XmlEvent::Text(s),
            Ok(_) => XmlEvent::Other,
            Err(_) => return None,
        });
    }
    Some(out)
}

/// One translatable unit: its key, parsed value, and optional description.
#[derive(Debug, Clone, PartialEq)]
pub struct StringValue {
    pub key: String,
    pub value: ParsedStringXmlValue,
    pub description: Option<String>,
}

/// The mathematical shape of an entry.
#[verifier::ext_equal]
pub struct EntryModel {
    pub key: Seq<char>,
    pub parts: Seq<ValuePartModel>,
    pub description: Option<Seq<char>>,
}

impl View for StringValue {
    type V = EntryModel;

    open spec fn view(&self) -> EntryModel {
        EntryModel {
            key: self.key@,
            parts: self.value@,
            description: match self.description {
                Some(d) => Some(d@),
                None => None,
            },
        }
    }
}

/// The models of an entry list.
pub open spec fn entries_model(entries: Seq<StringValue>) -> Seq<EntryModel> {
    entries.map_values(|e: StringValue| e@)
}

/// All entries of one locale's document.
#[derive(Debug, Clone, PartialEq)]
pub struct ParsedStringsXml {
    pub strings: Vec<StringValue>,
    pub locale: String,
}

/// The states of the extraction machine.
#[derive(Debug, Clone, Copy, PartialEq, Eq, Structural)]
pub enum ParserState {
    Start,
    InResources,
    InString,
}

/// A `<string>` element whose text has not arrived yet: its attributes.
pub struct PendingModel {
    pub key: Seq<char>,
    pub description: Option<Seq<char>>,
}

/// The first value in `attrs` under the attribute name `name`.
pub open spec fn spec_attr_value(attrs: Seq<(Seq<char>, Seq<char>)>, name: Seq<char>) -> Option<
    Seq<char>,
>
    decreases attrs.len(),
{
    if attrs.len() == 0 {
        None
    } else if attrs[0].0 == name {
        Some(attrs[0].1)
    } else {
        spec_attr_value(attrs.skip(1), name)
    }
}

/// The run of the extraction machine over the remaining events, from `state`
/// with the pending element `cur`.
pub open spec fn spec_extract_from(
    events: Seq<XmlEventModel>,
    state: ParserState,
    cur: Option<PendingModel>,
) -> Result<Seq<EntryModel>, ParseError>
    decreases events.len(),
{
    if events.len() == 0 {
        Ok(Seq::empty())
    } else {
        let rest = events.skip(1);
        match events[0] {
            XmlEventModel::ElementStart { name, attributes } => match state {
                ParserState::Start => spec_extract_from(
                    rest,
                    if name == "resources"@ {
                        ParserState::InResources
                    } else {
                        ParserState::Start
                    },
                    cur,
                ),
                ParserState::InResources => {
                    if name == "string"@ {
                        match spec_attr_value(attributes, "name"@) {
                            None => Err(ParseError::MissingName),
                            Some(k) => spec_extract_from(
                                rest,
                                ParserState::InString,
                                Some(
                                    PendingModel {
                                        key: k,
                                        description: spec_attr_value(attributes, "description"@),
                                    },
                                ),
                            ),
                        }
                    } else {
                        spec_extract_from(rest, ParserState::InResources, cur)
                    }
                },
                ParserState::InString => spec_extract_from(rest, ParserState::InString, cur),
            },
            XmlEventModel::ElementEnd { name } => spec_extract_from(
                rest,
                if state is InString && name == "string"@ {
                    ParserState::InResources
                } else {
                    state
                },
                cur,
            ),
            XmlEventModel::Text(s) => {
                if state is InString && cur is Some {
                    match spec_parse(s) {
                        Ok(parts) => match spec_extract_from(rest, state, None) {
                            Ok(out) => Ok(
                                seq![
                                    EntryModel {
                                        key: cur->0.key,
                                        parts: parts,
                                        description: cur->0.description,
                                    },
                                ] + out,
                            ),
                            Err(e) => Err(e),
                        },
                        Err(e) => Err(e),
                    }
                } else {
                    spec_extract_from(rest, state, cur)
                }
            },
            XmlEventModel::Other => spec_extract_from(rest, state, cur),
        }
    }
}

/// The run of the machine over a whole event stream.
pub open spec fn spec_extract(events: Seq<XmlEventModel>) -> Result<Seq<EntryModel>, ParseError> {
    spec_extract_from(events, ParserState::Start, None)
}

/// The first value under `name` in an attribute list, as the machine reads it.
pub fn find_attr(tags: &Vec<(String, String)>, name: &str) -> (r: Option<String>)
    ensures
        match r {
            Some(v) => spec_attr_value(attrs_model(tags@), name@) == Some(v@),
            None => spec_attr_value(attrs_model(tags@), name@) is None,
        },
{
    let n = tags.len();
    let mut i: usize = 0;
    proof {
        assert(attrs_model(tags@).skip(0) =~= attrs_model(tags@));
    }
    while i < n
        invariant
            i <= n,
            n == tags@.len(),
            attrs_model(tags@).len() == n,
            spec_attr_value(attrs_model(tags@), name@) == spec_attr_value(
                attrs_model(tags@).skip(i as int),
                name@,
            ),
        decreases n - i,
    {
        proof {
            assert(attrs_model(tags@).skip(i as int)[0] == attrs_model(tags@)[i as int]);
            assert(attrs_model(tags@).skip(i as int).skip(1) =~= attrs_model(tags@).skip(i + 1));
        }
        if str_eq(tags[i].0.as_str(), name) {
            return Some(tags[i].1.clone());
        }
        i += 1;
    }
    proof {
        assert(attrs_model(tags@).skip(n as int) =~= Seq::<(Seq<char>, Seq<char>)>::empty());
    }
    None
}

/// Reads the `name` and `description` attributes of a `<string>` tag into the
/// entry under construction; a missing `name` is the `MissingName` error.
pub fn handle_string_tag_attributes(value: &mut StringValue, tags: &Vec<(String, String)>) -> (r:
    Result<(), ParseError>)
    ensures
        match spec_attr_value(attrs_model(tags@), "name"@) {
            None => r == Err::<(), ParseError>(ParseError::MissingName) && *final(value) == *old(
                value),
            Some(k) => r == Ok::<(), ParseError>(()) && final(value).key@ == k && final(
                value).value == old(value).value && (match spec_attr_value(
                attrs_model(tags@),
                "description"@,
            ) {
                Some(d) => final(value).description matches Some(fd) && fd@ == d,
                None => final(value).description == old(value).description,
            }),
        },
{
    let name_tag = find_attr(tags, "name");
    match name_tag {
        None => Err(ParseError::MissingName),
        Some(k) => {
            value.key = k;
            match find_attr(tags, "description") {
                Some(d) => {
                    value.description = Some(d);
                },
                None => {},
            }
            Ok(())
        },
    }
}

/// Runs the extraction machine over an event list; the result is exactly
/// `spec_extract` of the events.
pub fn extract_from_events(events: &Vec<XmlEvent>) -> (r: Result<Vec<StringValue>, ParseError>)
    ensures
        match r {
            Ok(v) => spec_extract(events_model(events@)) == Ok::<Seq<EntryModel>, ParseError>(
                entries_model(v@),
            ),
            Err(e) => spec_extract(events_model(events@)) == Err::<Seq<EntryModel>, ParseError>(e),
        },
{
    let ghost evm = events_model(events@);
    let n = events.len();
    let mut state = ParserState::Start;
    let mut current_string: Option<StringValue> = None;
    let mut out: Vec<StringValue> = Vec::new();
    let mut i: usize = 0;
    proof {
        assert(evm.skip(0) =~= evm);
        match spec_extract(evm) {
            Ok(rest) => {
                assert(entries_model(out@) + rest =~= rest);
            },
            Err(_) => {},
        }
    }
    while i < n
        invariant
            i <= n,
            n == events@.len(),
            evm == events_model(events@),
            evm.len() == n,
            match spec_extract_from(evm.skip(i as int), state, pending_model(current_string)) {
                Ok(rest) => spec_extract(evm) == Ok::<Seq<EntryModel>, ParseError>(
                    entries_model(out@) + rest,
                ),
                Err(e) => spec_extract(evm) == Err::<Seq<EntryModel>, ParseError>(e),
            },
        decreases n - i,
    {
        let ghost rem = evm.skip(i as int);
        proof {
            assert(rem[0] == evm[i as int]);
            assert(evm[i as int] == events@[i as int]@);
            assert(rem.skip(1) =~= evm.skip(i + 1));
        }
        match &events[i] {
            XmlEvent::ElementStart { name, attributes } => {
                match state {
                    ParserState::Start => {
                        if str_eq(name.as_str(), "resources") {
                            state = ParserState::InResources;
                        }
                    },
                    ParserState::InResources => {
                        if str_eq(name.as_str(), "string") {
                            let mut string_value = StringValue {
                                key: String::new(),
                                value: ParsedStringXmlValue { contents: Vec::new() },
                                description: None,
                            };
                            match handle_string_tag_attributes(&mut string_value, attributes) {
                                Ok(()) => {
                                    state = ParserState::InString;
                                    current_string = Some(string_value);
                                },
                                Err(e) => {
                                    return Err(e);
                                },
                            }
                        }
                    },
                    ParserState::InString => {},
                }
            },
            XmlEvent::ElementEnd { name } => {
                match state {
                    ParserState::InString => {
                        if str_eq(name.as_str(), "string") {
                            state = ParserState::InResources;
                        }
                    },
                    _ => {},
                }
            },
            XmlEvent::Text(s) => {
                match state {
                    ParserState::InString => {
                        let cur_opt = current_string;
                        current_string = None;
                        match cur_opt {
                            Some(mut taken) => {
                                match ParsedStringXmlValue::parse(s.clone()) {
                                    Ok(v) => {
                                        let ghost entry_m = EntryModel {
                                            key: taken.key@,
                                            parts: v@,
                                            description: taken@.description,
                                        };
                                        taken.value = v;
                                        proof {
                                            assert(taken@ == entry_m);
                                        }
                                        let ghost old_out = out@;
                                        out.push(taken);
                                        proof {
                                            assert(entries_model(out@) =~= entries_model(old_out)
                                                + seq![entry_m]);
                                            match spec_extract_from(
                                                rem.skip(1),
                                                ParserState::InString,
                                                None,
                                            ) {
                                                Ok(rest2) => {
                                                    assert(entries_model(old_out) + (seq![entry_m]
                                                        + rest2) =~= entries_model(out@) + rest2);
                                                },
                                                Err(_) => {},
                                            }
                                        }
                                    },
                                    Err(e) => {
                                        return Err(e);
                                    },
                                }
                            },
                            None => {},
                        }
                    },
                    _ => {},
                }
            },
            XmlEvent::Other => {},
        }
        i += 1;
    }
    proof {
        assert(evm.skip(n as int) =~= Seq::<XmlEventModel>::empty());
        match spec_extract_from(evm.skip(n as int), state, pending_model(current_string)) {
            Ok(rest) => {
                assert(entries_model(out@) + rest =~= entries_model(out@));
            },
            Err(_) => {},
        }
    }
    Ok(out)
}

/// The pending element an in-progress entry stands for.
pub open spec fn pending_model(cur: Option<StringValue>) -> Option<PendingModel> {
    match cur {
        Some(sv) => Some(PendingModel { key: sv.key@, description: sv@.description }),
        None => None,
    }
}

/// Parses one `strings.xml` document text for one locale: the event stream is
/// built (a syntax error is `MalformedDocument`) and the extraction machine is
/// run over it.
pub fn handle_strings_xml(contents: &str, locale: &str) -> (r: Result<ParsedStringsXml, ParseError>)
    ensures
        match xml_events_of(contents@) {
            None => r == Err::<ParsedStringsXml, ParseError>(ParseError::MalformedDocument),
            Some(evs) => match spec_extract(evs) {
                Ok(es) => r matches Ok(px) && entries_model(px.strings@) == es && px.locale@
                    == locale@,
                Err(e) => r == Err::<ParsedStringsXml, ParseError>(e),
            },
        },
{
    match read_xml_events(contents) {
        None => Err(ParseError::MalformedDocument),
        Some(events) => match extract_from_events(&events) {
            Ok(strings) => Ok(ParsedStringsXml { strings, locale: String::from_str(locale) }),
            Err(e) => Err(e),
        },
    }
}

/// The locale a resource directory name stands for: `values` is the base
/// locale `en`, `values-<locale>` is `<locale>`, and any other name is not a
/// resource directory.
pub open spec fn spec_locale_for_dir_name(name: Seq<char>) -> Option<Seq<char>> {
    if name == "values"@ {
        Some("en"@)
    } else if name.len() >= 7 && name.take(7) == "values-"@ {
        Some(name.skip(7))
    } else {
        None
    }
}

/// Decides `spec_locale_for_dir_name` on a directory name.
pub fn locale_for_dir_name(name: &str) -> (r: Option<String>)
    ensures
        match r {
            Some(loc) => spec_locale_for_dir_name(name@) == Some(loc@),
            None => spec_locale_for_dir_name(name@) is None,
        },
{
    if str_eq(name, "values") {
        return Some(String::from_str("en"));
    }
    let n = name.unicode_len();
    if n < 7 {
        return None;
    }
    let prefix = name.substring_char(0, 7);
    proof {
        assert(prefix@ =~= name@.take(7));
    }
    if str_eq(prefix, "values-") {
        let rest = name.substring_char(7, n);
        proof {
            assert(rest@ =~= name@.skip(7));
        }
        Some(String::from_str(rest))
    } else {
        None
    }
}

} // verus!
