//! The value mini-language: a raw resource string is a sequence of literal
//! runs, escape sequences (`\\`, `\'`, `\"`, `\n`, `\t`, `\@`, `\?`) and
//! positional string placeholders (`%s`, with `%%` as a literal percent).
//! Parsing yields an ordered list of text and placeholder parts; placeholder
//! indices count up from zero in order of appearance.

use vstd::prelude::*;
use vstd::string::*;

use crate::strutil::{dec_digits, push_char, str_to_chars, usize_to_decimal};

verus! {

/// The error kinds of the whole pipeline.
#[derive(Debug, Clone, Copy, PartialEq, Eq, Structural)]
pub enum ParseError {
    /// A `<string>` element lacks the mandatory `name` attribute.
    MissingName,
    /// An unrecognized character follows `\` in a value, or `\` ends the input.
    UnknownEscape,
    /// An unrecognized character follows `%` in a value, or `%` ends the input.
    UnknownSpecifier,
    /// The XML event stream cannot be constructed from the document text.
    MalformedDocument,
}

/// The conversion a placeholder performs; only string substitution is modeled.
#[derive(Debug, Clone, Copy, PartialEq, Eq, Structural)]
pub enum FormatSpecifierType {
    StringKind,
}

/// One positional placeholder: its conversion and its 0-based ordinal among
/// the placeholders of the value it occurs in.
#[derive(Debug, Clone, Copy, PartialEq, Eq, Structural)]
pub struct FormatSpecifier {
    pub specifier_type: FormatSpecifierType,
    pub arg_number: usize,
}

/// The mathematical shape of a placeholder: its conversion and ordinal.
pub struct SpecifierModel {
    pub specifier_type: FormatSpecifierType,
    pub arg_number: nat,
}

impl View for FormatSpecifier {
    type V = SpecifierModel;

    open spec fn view(&self) -> SpecifierModel {
        SpecifierModel { specifier_type: self.specifier_type, arg_number: self.arg_number as nat }
    }
}

/// One part of a parsed value: a non-empty literal run (escape-decoded) or a
/// placeholder.
#[derive(Debug, Clone, PartialEq)]
pub enum ParsedStringXmlValuePart {
    FormatSpecifier(FormatSpecifier),
    Text(String),
}

/// The mathematical shape of a part.
#[verifier::ext_equal]
pub enum ValuePartModel {
    Specifier(SpecifierModel),
    Text(Seq<char>),
}

impl View for ParsedStringXmlValuePart {
    type V = ValuePartModel;

    open spec fn view(&self) -> ValuePartModel {
        match self {
            ParsedStringXmlValuePart::FormatSpecifier(f) => ValuePartModel::Specifier(f@),
            ParsedStringXmlValuePart::Text(t) => ValuePartModel::Text(t@),
        }
    }
}

/// A fully parsed value: the ordered parts.
#[derive(Debug, Clone, PartialEq)]
pub struct ParsedStringXmlValue {
    pub contents: Vec<ParsedStringXmlValuePart>,
}

impl View for ParsedStringXmlValue {
    type V = Seq<ValuePartModel>;

    open spec fn view(&self) -> Seq<ValuePartModel> {
        parts_model(self.contents@)
    }
}

/// The models of a sequence of parts.
pub open spec fn parts_model(parts: Seq<ParsedStringXmlValuePart>) -> Seq<ValuePartModel> {
    parts.map_values(|p: ParsedStringXmlValuePart| p@)
}

/// The decoding of the character after a backslash, if it is a recognized
/// escape.
pub open spec fn spec_escape_char(c: char) -> Option<char> {
    if c == '\\' {
        Some('\\')
    } else if c == '\'' {
        Some('\'')
    } else if c == '"' {
        Some('"')
    } else if c == 'n' {
        Some('\n')
    } else if c == 't' {
        Some('\t')
    } else if c == '@' {
        Some('@')
    } else if c == '?' {
        Some('?')
    } else {
        None
    }
}

/// A pending literal run becomes a part only if it is non-empty.
pub open spec fn spec_flush(buf: Seq<char>) -> Seq<ValuePartModel> {
    if buf.len() == 0 {
        Seq::empty()
    } else {
        seq![ValuePartModel::Text(buf)]
    }
}

/// The parse of the remaining input `s`, given the pending literal run `buf`
/// and the next placeholder ordinal `arg`. Escapes and literal percents join
/// the pending run; a placeholder flushes it.
pub open spec fn spec_parse_from(s: Seq<char>, buf: Seq<char>, arg: nat) -> Result<
    Seq<ValuePartModel>,
    ParseError,
>
    decreases s.len(),
{
    if s.len() == 0 {
        Ok(spec_flush(buf))
    } else if s[0] == '\\' {
        if s.len() == 1 {
            Err(ParseError::UnknownEscape)
        } else {
            match spec_escape_char(s[1]) {
                Some(c) => spec_parse_from(s.skip(2), buf.push(c), arg),
                None => Err(ParseError::UnknownEscape),
            }
        }
    } else if s[0] == '%' {
        if s.len() == 1 {
            Err(ParseError::UnknownSpecifier)
        } else if s[1] == '%' {
            spec_parse_from(s.skip(2), buf.push('%'), arg)
        } else if s[1] == 's' {
            match spec_parse_from(s.skip(2), Seq::empty(), arg + 1) {
                Ok(rest) => Ok(
                    spec_flush(buf) + seq![
                        ValuePartModel::Specifier(
                            SpecifierModel {
                                specifier_type: FormatSpecifierType::StringKind,
                                arg_number: arg,
                            },
                        ),
                    ] + rest,
                ),
                Err(e) => Err(e),
            }
        } else {
            Err(ParseError::UnknownSpecifier)
        }
    } else {
        spec_parse_from(s.skip(1), buf.push(s[0]), arg)
    }
}

/// The parse of a whole raw value.
pub open spec fn spec_parse(s: Seq<char>) -> Result<Seq<ValuePartModel>, ParseError> {
    spec_parse_from(s, Seq::empty(), 0)
}

/// The ARB rendering of one part: literal text itself, a placeholder as
/// `{pN}`.
pub open spec fn spec_render_part(p: ValuePartModel) -> Seq<char> {
    match p {
        ValuePartModel::Text(t) => t,
        ValuePartModel::Specifier(f) => seq!['{', 'p'] + dec_digits(f.arg_number) + seq!['}'],
    }
}

/// The ARB rendering of a parsed value: its parts, concatenated.
pub open spec fn spec_render_value(parts: Seq<ValuePartModel>) -> Seq<char>
    decreases parts.len(),
{
    if parts.len() == 0 {
        Seq::empty()
    } else {
        spec_render_part(parts[0]) + spec_render_value(parts.skip(1))
    }
}

/// The placeholders of a value, in order of appearance.
pub open spec fn spec_specifier_list(parts: Seq<ValuePartModel>) -> Seq<SpecifierModel>
    decreases parts.len(),
{
    if parts.len() == 0 {
        Seq::empty()
    } else {
        let rest = spec_specifier_list(parts.drop_last());
        match parts.last() {
            ValuePartModel::Specifier(f) => rest.push(f),
            ValuePartModel::Text(_) => rest,
        }
    }
}

impl FormatSpecifier {
    /// Renders this placeholder for the ARB value text, `{pN}`.
    pub fn to_arb_string(&self) -> (r: String)
        ensures
            r@ == spec_render_part(ValuePartModel::Specifier(self@)),
    {
        let mut s = String::new();
        push_char(&mut s, '{');
        push_char(&mut s, 'p');
        let digits = usize_to_decimal(self.arg_number);
        s.append(digits.as_str());
        push_char(&mut s, '}');
        proof {
            assert(s@ =~= seq!['{', 'p'] + dec_digits(self.arg_number as nat) + seq!['}']);
        }
        s
    }

    /// The ARB placeholder name, `pN`.
    pub fn to_arb_placeholder_name(&self) -> (r: String)
        ensures
            r@ == seq!['p'] + dec_digits(self.arg_number as nat),
    {
        let mut s = String::new();
        push_char(&mut s, 'p');
        let digits = usize_to_decimal(self.arg_number);
        s.append(digits.as_str());
        proof {
            assert(s@ =~= seq!['p'] + dec_digits(self.arg_number as nat));
        }
        s
    }

    /// The ARB type name of this placeholder's conversion.
    pub fn to_arb_placeholder_type(&self) -> (r: &'static str)
        ensures
            r@ == spec_type_name(self.specifier_type),
    {
        match self.specifier_type {
            FormatSpecifierType::StringKind => "String",
        }
    }
}

/// The ARB type name of a conversion.
pub open spec fn spec_type_name(t: FormatSpecifierType) -> Seq<char> {
    match t {
        FormatSpecifierType::StringKind => "String"@,
    }
}

impl ParsedStringXmlValuePart {
    /// Renders this part for the ARB value text.
    pub fn to_arb_string(&self) -> (r: String)
        ensures
            r@ == spec_render_part(self@),
    {
        match self {
            ParsedStringXmlValuePart::FormatSpecifier(specifier) => specifier.to_arb_string(),
            ParsedStringXmlValuePart::Text(t) => t.clone(),
        }
    }

    /// Whether this part is a placeholder.
    pub fn is_format_specifier(&self) -> (r: bool)
        ensures
            r == (self@ is Specifier),
    {
        match self {
            ParsedStringXmlValuePart::FormatSpecifier(_) => true,
            ParsedStringXmlValuePart::Text(_) => false,
        }
    }
}

/// Decodes the character that follows a backslash; `None` stands for end of
/// input, which is an error.
pub fn parse_escaped(next: Option<char>) -> (r: Result<char, ParseError>)
    ensures
        match next {
            Some(c) => match spec_escape_char(c) {
                Some(d) => r == Ok::<char, ParseError>(d),
                None => r == Err::<char, ParseError>(ParseError::UnknownEscape),
            },
            None => r == Err::<char, ParseError>(ParseError::UnknownEscape),
        },
{
    match next {
        Some(c) => {
            if c == '\\' {
                Ok('\\')
            } else if c == '\'' {
                Ok('\'')
            } else if c == '"' {
                Ok('"')
            } else if c == 'n' {
                Ok('\n')
            } else if c == 't' {
                Ok('\t')
            } else if c == '@' {
                Ok('@')
            } else if c == '?' {
                Ok('?')
            } else {
                Err(ParseError::UnknownEscape)
            }
        },
        None => Err(ParseError::UnknownEscape),
    }
}

/// Reads the character that follows a percent sign: `Ok(None)` is a literal
/// percent, `Ok(Some(f))` a fresh placeholder (the counter advances), and
/// anything else the `UnknownSpecifier` error.
pub fn parse_formatting_specifier(next: Option<char>, current_arg_number: &mut usize) -> (r: Result<
    Option<FormatSpecifier>,
    ParseError,
>)
    requires
        *old(current_arg_number) < usize::MAX,
    ensures
        match next {
            Some(c) => {
                if c == '%' {
                    r == Ok::<Option<FormatSpecifier>, ParseError>(None)
                        && *final(current_arg_number) == *old(current_arg_number)
                } else if c == 's' {
                    r == Ok::<Option<FormatSpecifier>, ParseError>(
                        Some(
                            FormatSpecifier {
                                specifier_type: FormatSpecifierType::StringKind,
                                arg_number: *old(current_arg_number),
                            },
                        ),
                    ) && *final(current_arg_number) == *old(current_arg_number) + 1
                } else {
                    r == Err::<Option<FormatSpecifier>, ParseError>(ParseError::UnknownSpecifier)
                        && *final(current_arg_number) == *old(current_arg_number)
                }
            },
            None => r == Err::<Option<FormatSpecifier>, ParseError>(ParseError::UnknownSpecifier)
                && *final(current_arg_number) == *old(current_arg_number),
        },
{
    match next {
        Some(c) => {
            if c == '%' {
                Ok(None)
            } else if c == 's' {
                let f = FormatSpecifier {
                    specifier_type: FormatSpecifierType::StringKind,
                    arg_number: *current_arg_number,
                };
                *current_arg_number = *current_arg_number + 1;
                Ok(Some(f))
            } else {
                Err(ParseError::UnknownSpecifier)
            }
        },
        None => Err(ParseError::UnknownSpecifier),
    }
}

/// Moves the pending literal run into the part list if it is non-empty, and
/// hands back an empty run.
pub fn current_to_text_if_needed(current: String, parts: &mut Vec<ParsedStringXmlValuePart>) -> (r:
    String)
    ensures
        parts_model(final(parts)@) == parts_model(old(parts)@) + spec_flush(current@),
        r@ == Seq::<char>::empty(),
{
    let r = String::new();
    if !current.as_str().is_empty() {
        let ghost cur = current@;
        parts.push(ParsedStringXmlValuePart::Text(current));
        proof {
            assert(parts_model(parts@) =~= parts_model(old(parts)@) + spec_flush(cur));
        }
    } else {
        proof {
            assert(parts_model(parts@) =~= parts_model(old(parts)@) + spec_flush(current@));
        }
    }
    r
}

impl ParsedStringXmlValue {
    /// Parses a raw value into its parts; the result is exactly `spec_parse`
    /// of the text.
    pub fn parse(text: String) -> (r: Result<Self, ParseError>)
        ensures
            match r {
                Ok(v) => spec_parse(text@) == Ok::<Seq<ValuePartModel>, ParseError>(v@),
                Err(e) => spec_parse(text@) == Err::<Seq<ValuePartModel>, ParseError>(e),
            },
    {
        let chars = str_to_chars(text.as_str());
        let n = chars.len();
        let mut current_text = String::new();
        let mut current_arg_number: usize = 0;
        let mut parsed: Vec<ParsedStringXmlValuePart> = Vec::new();
        let mut i: usize = 0;
        proof {
            assert(text@.skip(0) =~= text@);
            match spec_parse(text@) {
                Ok(rest) => {
                    assert(parts_model(parsed@) + rest =~= rest);
                },
                Err(_) => {},
            }
        }
        while i < n
            invariant
                i <= n,
                n == chars@.len(),
                chars@ == text@,
                2 * current_arg_number <= i,
                match spec_parse_from(
                    text@.skip(i as int),
                    current_text@,
                    current_arg_number as nat,
                ) {
                    Ok(rest) => spec_parse(text@) == Ok::<Seq<ValuePartModel>, ParseError>(
                        parts_model(parsed@) + rest,
                    ),
                    Err(e) => spec_parse(text@) == Err::<Seq<ValuePartModel>, ParseError>(e),
                },
            decreases n - i,
        {
            let ghost rem = text@.skip(i as int);
            proof {
                assert(rem.len() == n - i);
                assert(rem[0] == text@[i as int]);
                if i + 1 < n {
                    assert(rem[1] == text@[i + 1]);
                }
                assert(rem.skip(1) =~= text@.skip(i + 1));
                if i + 2 <= n {
                    assert(rem.skip(2) =~= text@.skip(i + 2));
                }
            }
            let c = chars[i];
            if c == '\\' {
                let next = if i + 1 < n {
                    Some(chars[i + 1])
                } else {
                    None
                };
                match parse_escaped(next) {
                    Ok(d) => {
                        push_char(&mut current_text, d);
                        i = i + 2;
                    },
                    Err(e) => {
                        return Err(e);
                    },
                }
            } else if c == '%' {
                let next = if i + 1 < n {
                    Some(chars[i + 1])
                } else {
                    None
                };
                match parse_formatting_specifier(next, &mut current_arg_number) {
                    Ok(None) => {
                        push_char(&mut current_text, '%');
                        i = i + 2;
                    },
                    Ok(Some(f)) => {
                        let ghost old_parsed = parsed@;
                        let ghost old_buf = current_text@;
                        let ghost old_arg = f.arg_number as nat;
                        current_text = current_to_text_if_needed(current_text, &mut parsed);
                        parsed.push(ParsedStringXmlValuePart::FormatSpecifier(f));
                        proof {
                            let spec_part = ValuePartModel::Specifier(
                                SpecifierModel {
                                    specifier_type: FormatSpecifierType::StringKind,
                                    arg_number: old_arg,
                                },
                            );
                            assert(f@ == SpecifierModel {
                                specifier_type: FormatSpecifierType::StringKind,
                                arg_number: old_arg,
                            });
                            assert(parts_model(parsed@) =~= parts_model(old_parsed) + spec_flush(
                                old_buf,
                            ) + seq![spec_part]);
                            match spec_parse_from(rem.skip(2), Seq::<char>::empty(), old_arg + 1) {
                                Ok(rest2) => {
                                    assert(spec_parse_from(rem, old_buf, old_arg) == Ok::<
                                        Seq<ValuePartModel>,
                                        ParseError,
                                    >(spec_flush(old_buf) + seq![spec_part] + rest2));
                                    assert(parts_model(old_parsed) + (spec_flush(old_buf)
                                        + seq![spec_part] + rest2) =~= parts_model(parsed@)
                                        + rest2);
                                },
                                Err(_) => {},
                            }
                        }
                        i = i + 2;
                    },
                    Err(e) => {
                        return Err(e);
                    },
                }
            } else {
                push_char(&mut current_text, c);
                i = i + 1;
            }
        }
        let ghost old_parsed = parsed@;
        let ghost old_buf = current_text@;
        current_to_text_if_needed(current_text, &mut parsed);
        proof {
            assert(text@.skip(n as int) =~= Seq::<char>::empty());
            assert(parts_model(parsed@) + Seq::<ValuePartModel>::empty() =~= parts_model(parsed@));
            assert(parts_model(old_parsed) + spec_flush(old_buf) =~= parts_model(parsed@));
        }
        Ok(ParsedStringXmlValue { contents: parsed })
    }

    /// Renders the whole value for the ARB map: literal text with each
    /// placeholder as `{pN}`.
    pub fn to_arb_string(&self) -> (r: String)
        ensures
            r@ == spec_render_value(self@),
    {
        let mut out = String::new();
        let n = self.contents.len();
        let mut i: usize = 0;
        proof {
            assert(self@.skip(0) =~= self@);
            assert(Seq::<char>::empty() + spec_render_value(self@) =~= spec_render_value(self@));
        }
        while i < n
            invariant
                i <= n,
                n == self.contents@.len(),
                self@.len() == n,
                spec_render_value(self@) == out@ + spec_render_value(self@.skip(i as int)),
            decreases n - i,
        {
            let ghost old_out = out@;
            let piece = self.contents[i].to_arb_string();
            out.append(piece.as_str());
            proof {
                assert(self@.skip(i as int)[0] == self@[i as int]);
                assert(self@.skip(i as int).skip(1) =~= self@.skip(i + 1));
                assert((old_out + spec_render_part(self@[i as int])) + spec_render_value(
                    self@.skip(i + 1),
                ) =~= old_out + (spec_render_part(self@[i as int]) + spec_render_value(
                    self@.skip(i + 1),
                )));
            }
            i += 1;
        }
        proof {
            assert(self@.skip(n as int) =~= Seq::<ValuePartModel>::empty());
            assert(out@ + Seq::<char>::empty() =~= out@);
        }
        out
    }

    /// The placeholders of this value, in order of appearance.
    pub fn format_specifiers(&self) -> (r: Vec<FormatSpecifier>)
        ensures
            r@.map_values(|f: FormatSpecifier| f@) == spec_specifier_list(self@),
    {
        let mut out: Vec<FormatSpecifier> = Vec::new();
        let n = self.contents.len();
        let mut i: usize = 0;
        while i < n
            invariant
                i <= n,
                n == self.contents@.len(),
                self@.len() == n,
                out@.map_values(|f: FormatSpecifier| f@) == spec_specifier_list(
                    self@.take(i as int),
                ),
            decreases n - i,
        {
            proof {
                assert(self@.take(i + 1).drop_last() =~= self@.take(i as int));
                assert(self@.take(i + 1).last() == self@[i as int]);
            }
            match &self.contents[i] {
                ParsedStringXmlValuePart::FormatSpecifier(f) => {
                    out.push(*f);
                    proof {
                        assert(out@.map_values(|f: FormatSpecifier| f@) =~= spec_specifier_list(
                            self@.take(i + 1),
                        ));
                    }
                },
                ParsedStringXmlValuePart::Text(_) => {},
            }
            i += 1;
        }
        proof {
            assert(self@.take(n as int) =~= self@);
        }
        out
    }
}

/// Parsing input that holds neither `\` nor `%` yields the input back as one
/// literal run (or nothing, when the input is empty), with no placeholders.
pub proof fn lemma_parse_literal_only(s: Seq<char>)
    requires
        forall|i: int| 0 <= i < s.len() ==> s[i] != '\\' && s[i] != '%',
    ensures
        spec_parse(s) == Ok::<Seq<ValuePartModel>, ParseError>(spec_flush(s)),
        spec_render_value(spec_flush(s)) == s,
{
    lemma_parse_from_literal(s, Seq::empty(), 0);
    assert(Seq::<char>::empty() + s =~= s);
    if s.len() == 0 {
        assert(spec_render_value(spec_flush(s)) =~= s);
    } else {
        assert(spec_flush(s)[0] == ValuePartModel::Text(s));
        assert(spec_flush(s).skip(1) =~= Seq::<ValuePartModel>::empty());
        assert(spec_render_value(spec_flush(s).skip(1)) == Seq::<char>::empty());
        assert(s + Seq::<char>::empty() =~= s);
        assert(spec_render_value(spec_flush(s)) =~= s);
    }
}

proof fn lemma_specifier_list_concat(a: Seq<ValuePartModel>, b: Seq<ValuePartModel>)
    ensures
        spec_specifier_list(a + b) == spec_specifier_list(a) + spec_specifier_list(b),
    decreases b.len(),
{
    if b.len() == 0 {
        assert(a + b =~= a);
        assert(spec_specifier_list(b) =~= Seq::<SpecifierModel>::empty());
        assert(spec_specifier_list(a) + spec_specifier_list(b) =~= spec_specifier_list(a));
    } else {
        lemma_specifier_list_concat(a, b.drop_last());
        assert((a + b).drop_last() =~= a + b.drop_last());
        assert((a + b).last() == b.last());
        match b.last() {
            ValuePartModel::Specifier(f) => {
                assert(spec_specifier_list(a) + spec_specifier_list(b.drop_last()).push(f) =~= (
                spec_specifier_list(a) + spec_specifier_list(b.drop_last())).push(f));
            },
            ValuePartModel::Text(_) => {},
        }
    }
}

proof fn lemma_parse_from_invariants(s: Seq<char>, buf: Seq<char>, arg: nat)
    requires
        spec_parse_from(s, buf, arg) is Ok,
    ensures
        ({
            let parts = spec_parse_from(s, buf, arg)->Ok_0;
            &&& forall|j: int|
                0 <= j < spec_specifier_list(parts).len() ==> (#[trigger] spec_specifier_list(
                    parts,
                )[j]).arg_number == arg + j
            &&& forall|j: int|
                0 <= j < parts.len() && (#[trigger] parts[j]) is Text ==> parts[j]->Text_0.len()
                    > 0
        }),
    decreases s.len(),
{
    let parts = spec_parse_from(s, buf, arg)->Ok_0;
    assert(spec_specifier_list(Seq::<ValuePartModel>::empty()) =~= Seq::<
        SpecifierModel,
    >::empty());
    if s.len() == 0 {
        if buf.len() == 0 {
            assert(spec_specifier_list(parts) =~= Seq::<SpecifierModel>::empty());
        } else {
            assert(parts.drop_last() =~= Seq::<ValuePartModel>::empty());
            assert(spec_specifier_list(parts) =~= Seq::<SpecifierModel>::empty());
        }
    } else if s[0] == '\\' {
        let c = spec_escape_char(s[1])->0;
        lemma_parse_from_invariants(s.skip(2), buf.push(c), arg);
    } else if s[0] == '%' {
        if s[1] == '%' {
            lemma_parse_from_invariants(s.skip(2), buf.push('%'), arg);
        } else {
            let f = SpecifierModel {
                specifier_type: FormatSpecifierType::StringKind,
                arg_number: arg,
            };
            let rest = spec_parse_from(s.skip(2), Seq::empty(), arg + 1)->Ok_0;
            lemma_parse_from_invariants(s.skip(2), Seq::empty(), arg + 1);
            let head = spec_flush(buf) + seq![ValuePartModel::Specifier(f)];
            assert(parts == head + rest);
            lemma_specifier_list_concat(head, rest);
            lemma_specifier_list_concat(spec_flush(buf), seq![ValuePartModel::Specifier(f)]);
            if buf.len() == 0 {
                assert(spec_specifier_list(spec_flush(buf)) =~= Seq::<SpecifierModel>::empty());
            } else {
                assert(spec_flush(buf).drop_last() =~= Seq::<ValuePartModel>::empty());
                assert(spec_specifier_list(spec_flush(buf)) =~= Seq::<SpecifierModel>::empty());
            }
            let single = seq![ValuePartModel::Specifier(f)];
            assert(single.drop_last() =~= Seq::<ValuePartModel>::empty());
            assert(spec_specifier_list(single) =~= seq![f]);
            assert(spec_specifier_list(parts) =~= seq![f] + spec_specifier_list(rest));
            assert forall|j: int|
                0 <= j < spec_specifier_list(parts).len() implies (#[trigger] spec_specifier_list(
                parts,
            )[j]).arg_number == arg + j by {
                if j > 0 {
                    assert(spec_specifier_list(parts)[j] == spec_specifier_list(rest)[j - 1]);
                }
            }
            assert forall|j: int|
                0 <= j < parts.len() && (#[trigger] parts[j]) is Text implies parts[j]->Text_0.len()
                > 0 by {
                if j >= head.len() {
                    assert(parts[j] == rest[j - head.len()]);
                } else if buf.len() > 0 && j == 0 {
                    assert(parts[j] == ValuePartModel::Text(buf));
                }
            }
        }
    } else {
        lemma_parse_from_invariants(s.skip(1), buf.push(s[0]), arg);
    }
}

/// Within one parsed value, placeholder ordinals are contiguous from zero in
/// order of appearance, and literal runs are never empty.
pub proof fn lemma_parse_value_invariants(s: Seq<char>)
    requires
        spec_parse(s) is Ok,
    ensures
        ({
            let parts = spec_parse(s)->Ok_0;
            &&& forall|j: int|
                0 <= j < spec_specifier_list(parts).len() ==> (#[trigger] spec_specifier_list(
                    parts,
                )[j]).arg_number == j
            &&& forall|j: int|
                0 <= j < parts.len() && (#[trigger] parts[j]) is Text ==> parts[j]->Text_0.len()
                    > 0
        }),
{
    lemma_parse_from_invariants(s, Seq::empty(), 0);
}

proof fn lemma_parse_from_literal(s: Seq<char>, buf: Seq<char>, arg: nat)
    requires
        forall|i: int| 0 <= i < s.len() ==> s[i] != '\\' && s[i] != '%',
    ensures
        spec_parse_from(s, buf, arg) == Ok::<Seq<ValuePartModel>, ParseError>(spec_flush(buf + s)),
    decreases s.len(),
{
    if s.len() == 0 {
        assert(buf + s =~= buf);
    } else {
        lemma_parse_from_literal(s.skip(1), buf.push(s[0]), arg);
        assert(buf.push(s[0]) + s.skip(1) =~= buf + s);
    }
}

} // verus!
