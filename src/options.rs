//! The speech request and its two constructors: from typed fields, and from
//! named entries of loosely-typed values.
use crate::degree::{degree_in_range, validate_style_degree, StyleDegree};
use crate::error::{ErrorView, ValidationError};
use crate::prosody::{parse_pitch, parse_rate, pitch_value, rate_value, str_eq};
use vstd::prelude::*;
use vstd::string::*;

verus! {

/// A speaking-role preset.
#[derive(Clone, Copy, Debug, PartialEq, Eq, Structural)]
pub enum Role {
    Girl,
    Boy,
    YoungAdultFemale,
    YoungAdultMale,
    OlderAdultFemale,
    OlderAdultMale,
    SeniorFemale,
    SeniorMale,
}

/// The name that the document uses for a role.
pub open spec fn role_name(r: Role) -> Seq<char> {
    match r {
        Role::Girl => "Girl"@,
        Role::Boy => "Boy"@,
        Role::YoungAdultFemale => "YoungAdultFemale"@,
        Role::YoungAdultMale => "YoungAdultMale"@,
        Role::OlderAdultFemale => "OlderAdultFemale"@,
        Role::OlderAdultMale => "OlderAdultMale"@,
        Role::SeniorFemale => "SeniorFemale"@,
        Role::SeniorMale => "SeniorMale"@,
    }
}

impl Role {
    /// The name that the document uses for this role.
    pub fn as_str(&self) -> (r: &'static str)
        ensures
            r@ == role_name(*self),
    {
        match self {
            Role::Girl => "Girl",
            Role::Boy => "Boy",
            Role::YoungAdultFemale => "YoungAdultFemale",
            Role::YoungAdultMale => "YoungAdultMale",
            Role::OlderAdultFemale => "OlderAdultFemale",
            Role::OlderAdultMale => "OlderAdultMale",
            Role::SeniorFemale => "SeniorFemale",
            Role::SeniorMale => "SeniorMale",
        }
    }
}

pub open spec fn opt_view(o: Option<String>) -> Option<Seq<char>> {
    match o {
        Some(s) => Some(s@),
        None => None,
    }
}

/// A validated speech request, as plain values.
pub ghost struct OptionsView {
    pub text: Option<Seq<char>>,
    pub voice: Option<Seq<char>>,
    pub locale: Option<Seq<char>>,
    pub style: Option<Seq<char>>,
    pub role: Option<Role>,
    pub style_degree: Option<StyleDegree>,
    pub pitch: Option<Seq<char>>,
    pub rate: Option<Seq<char>>,
}

/// What every speech request satisfies: its style degree is in range, and its
/// pitch and rate are in the form that parsing produces.
pub open spec fn options_valid(v: OptionsView) -> bool {
    &&& (v.style_degree matches Some(d) ==> degree_in_range(d))
    &&& (v.pitch matches Some(p) ==> exists|s: Seq<char>| pitch_value(s) == Some(p))
    &&& (v.rate matches Some(p) ==> exists|s: Seq<char>| rate_value(s) == Some(p))
}

/// A speech request: the text to say and how to say it.
#[derive(Debug)]
pub struct TextOptions {
    text: Option<String>,
    voice: Option<String>,
    locale: Option<String>,
    style: Option<String>,
    role: Option<Role>,
    style_degree: Option<StyleDegree>,
    pitch: Option<String>,
    rate: Option<String>,
}

impl View for TextOptions {
    type V = OptionsView;

    closed spec fn view(&self) -> OptionsView {
        OptionsView {
            text: opt_view(self.text),
            voice: opt_view(self.voice),
            locale: opt_view(self.locale),
            style: opt_view(self.style),
            role: self.role,
            style_degree: self.style_degree,
            pitch: opt_view(self.pitch),
            rate: opt_view(self.rate),
        }
    }
}

/// The fields of a speech request as a caller gives them, not yet validated.
#[derive(Debug, Clone)]
pub struct OptionFields {
    pub text: Option<String>,
    pub voice: Option<String>,
    pub locale: Option<String>,
    pub style: Option<String>,
    pub role: Option<Role>,
    pub style_degree: Option<StyleDegree>,
    pub pitch: Option<String>,
    pub rate: Option<String>,
}

/// The given fields, as plain values.
pub ghost struct FieldsView {
    pub text: Option<Seq<char>>,
    pub voice: Option<Seq<char>>,
    pub locale: Option<Seq<char>>,
    pub style: Option<Seq<char>>,
    pub role: Option<Role>,
    pub style_degree: Option<StyleDegree>,
    pub pitch: Option<Seq<char>>,
    pub rate: Option<Seq<char>>,
}

impl View for OptionFields {
    type V = FieldsView;

    open spec fn view(&self) -> FieldsView {
        FieldsView {
            text: opt_view(self.text),
            voice: opt_view(self.voice),
            locale: opt_view(self.locale),
            style: opt_view(self.style),
            role: self.role,
            style_degree: self.style_degree,
            pitch: opt_view(self.pitch),
            rate: opt_view(self.rate),
        }
    }
}

/// The request that the given fields make, or the first error among pitch,
/// rate and style degree, in that order.
pub open spec fn build_options(f: FieldsView) -> Result<OptionsView, ErrorView> {
    if f.pitch matches Some(p) && pitch_value(p) is None {
        Err(ErrorView::InvalidPitch(f.pitch->0))
    } else if f.rate matches Some(p) && rate_value(p) is None {
        Err(ErrorView::InvalidRate(f.rate->0))
    } else if f.style_degree matches Some(d) && !degree_in_range(d) {
        Err(ErrorView::StyleDegreeOutOfRange)
    } else {
        Ok(
            OptionsView {
                text: f.text,
                voice: f.voice,
                locale: f.locale,
                style: f.style,
                role: f.role,
                style_degree: f.style_degree,
                pitch: match f.pitch {
                    Some(p) => pitch_value(p),
                    None => None,
                },
                rate: match f.rate {
                    Some(p) => rate_value(p),
                    None => None,
                },
            },
        )
    }
}

/// A loosely-typed value given for a named option.
#[derive(Debug, Clone)]
pub enum OptionValue {
    Text(String),
    Number(StyleDegree),
    Role(Role),
}

/// The value of the first entry named `key`.
pub open spec fn lookup(entries: Seq<(String, OptionValue)>, key: Seq<char>) -> Option<OptionValue>
    decreases entries.len(),
{
    if entries.len() == 0 {
        None
    } else if entries[0].0@ == key {
        Some(entries[0].1)
    } else {
        lookup(entries.drop_first(), key)
    }
}

/// A text option: absent, a text, or (`Err`) a value of another kind.
pub open spec fn text_entry(entries: Seq<(String, OptionValue)>, key: Seq<char>) -> Result<
    Option<Seq<char>>,
    (),
> {
    match lookup(entries, key) {
        None => Ok(None),
        Some(OptionValue::Text(t)) => Ok(Some(t@)),
        Some(_) => Err(()),
    }
}

pub open spec fn role_entry(entries: Seq<(String, OptionValue)>) -> Result<Option<Role>, ()> {
    match lookup(entries, "role"@) {
        None => Ok(None),
        Some(OptionValue::Role(r)) => Ok(Some(r)),
        Some(_) => Err(()),
    }
}

pub open spec fn degree_entry(entries: Seq<(String, OptionValue)>) -> Result<
    Option<StyleDegree>,
    (),
> {
    match lookup(entries, "style_degree"@) {
        None => Ok(None),
        Some(OptionValue::Number(d)) => Ok(Some(d)),
        Some(_) => Err(()),
    }
}

/// The fields that named entries give, or the name of the first field (in the
/// order text, pitch, rate, style, role, style_degree, locale, voice) whose
/// value has the wrong kind. Entries with other names are ignored.
pub open spec fn keyed_fields(e: Seq<(String, OptionValue)>) -> Result<FieldsView, Seq<char>> {
    if text_entry(e, "text"@) is Err {
        Err("text"@)
    } else if text_entry(e, "pitch"@) is Err {
        Err("pitch"@)
    } else if text_entry(e, "rate"@) is Err {
        Err("rate"@)
    } else if text_entry(e, "style"@) is Err {
        Err("style"@)
    } else if role_entry(e) is Err {
        Err("role"@)
    } else if degree_entry(e) is Err {
        Err("style_degree"@)
    } else if text_entry(e, "locale"@) is Err {
        Err("locale"@)
    } else if text_entry(e, "voice"@) is Err {
        Err("voice"@)
    } else {
        Ok(
            FieldsView {
                text: text_entry(e, "text"@)->Ok_0,
                voice: text_entry(e, "voice"@)->Ok_0,
                locale: text_entry(e, "locale"@)->Ok_0,
                style: text_entry(e, "style"@)->Ok_0,
                role: role_entry(e)->Ok_0,
                style_degree: degree_entry(e)->Ok_0,
                pitch: text_entry(e, "pitch"@)->Ok_0,
                rate: text_entry(e, "rate"@)->Ok_0,
            },
        )
    }
}

proof fn lemma_lookup_found(entries: Seq<(String, OptionValue)>, key: Seq<char>, i: int)
    requires
        0 <= i < entries.len(),
        entries[i].0@ == key,
        forall|j: int| 0 <= j < i ==> (#[trigger] entries[j]).0@ != key,
    ensures
        lookup(entries, key) == Some(entries[i].1),
    decreases i,
{
    if i > 0 {
        let t = entries.drop_first();
        assert forall|j: int| 0 <= j < i - 1 implies (#[trigger] t[j]).0@ != key by {
            assert(t[j] == entries[j + 1]);
        }
        assert(entries[0].0@ != key);
        lemma_lookup_found(t, key, i - 1);
    }
}

proof fn lemma_lookup_absent(entries: Seq<(String, OptionValue)>, key: Seq<char>)
    requires
        forall|j: int| 0 <= j < entries.len() ==> (#[trigger] entries[j]).0@ != key,
    ensures
        lookup(entries, key) is None,
    decreases entries.len(),
{
    if entries.len() > 0 {
        let t = entries.drop_first();
        assert forall|j: int| 0 <= j < t.len() implies (#[trigger] t[j]).0@ != key by {
            assert(t[j] == entries[j + 1]);
        }
        assert(entries[0].0@ != key);
        lemma_lookup_absent(t, key);
    }
}

/// The value of the first entry named `key`.
fn find_entry<'a>(entries: &'a Vec<(String, OptionValue)>, key: &str) -> (r: Option<
    &'a OptionValue,
>)
    ensures
        match lookup(entries@, key@) {
            Some(v) => r matches Some(x) && *x == v,
            None => r is None,
        },
{
    let mut i: usize = 0;
    while i < entries.len()
        invariant
            i <= entries@.len(),
            forall|j: int| 0 <= j < i ==> (#[trigger] entries@[j]).0@ != key@,
        decreases entries.len() - i,
    {
        if str_eq(entries[i].0.as_str(), key) {
            proof {
                lemma_lookup_found(entries@, key@, i as int);
            }
            return Some(&entries[i].1);
        }
        i = i + 1;
    }
    proof {
        lemma_lookup_absent(entries@, key@);
    }
    None
}

/// A text option of the entries, or the error that names it.
fn text_option(entries: &Vec<(String, OptionValue)>, key: &str) -> (r: Result<
    Option<String>,
    ValidationError,
>)
    ensures
        match text_entry(entries@, key@) {
            Ok(v) => r matches Ok(o) && opt_view(o) == v,
            Err(_) => r matches Err(e) && e@ == ErrorView::WrongType(key@),
        },
{
    match find_entry(entries, key) {
        None => Ok(None),
        Some(OptionValue::Text(t)) => Ok(Some(t.clone())),
        Some(_) => Err(ValidationError::WrongType(String::from_str(key))),
    }
}

impl TextOptions {
    #[verifier::type_invariant]
    closed spec fn inv(&self) -> bool {
        options_valid(self@)
    }

    /// Builds a request from typed fields, validating pitch, rate and style degree.
    pub fn from_fields(fields: OptionFields) -> (r: Result<TextOptions, ValidationError>)
        ensures
            match build_options(fields@) {
                Ok(v) => r matches Ok(o) && o@ == v,
                Err(ev) => r matches Err(e) && e@ == ev,
            },
            r matches Ok(o) ==> options_valid(o@),
    {
        let pitch = match &fields.pitch {
            Some(p) => match parse_pitch(p.as_str()) {
                Ok(v) => Some(v),
                Err(e) => return Err(e),
            },
            None => None,
        };
        let rate = match &fields.rate {
            Some(p) => match parse_rate(p.as_str()) {
                Ok(v) => Some(v),
                Err(e) => return Err(e),
            },
            None => None,
        };
        if let Some(d) = fields.style_degree {
            if !validate_style_degree(d) {
                return Err(ValidationError::StyleDegreeOutOfRange);
            }
        }
        proof {
            if let Some(p) = fields@.pitch {
                assert(pitch_value(p) == opt_view(pitch));
            }
            if let Some(p) = fields@.rate {
                assert(rate_value(p) == opt_view(rate));
            }
        }
        let r = TextOptions {
            text: fields.text,
            voice: fields.voice,
            locale: fields.locale,
            style: fields.style,
            role: fields.role,
            style_degree: fields.style_degree,
            pitch,
            rate,
        };
        assert(r@ == build_options(fields@)->Ok_0);
        Ok(r)
    }

    /// Builds a request from named entries of loosely-typed values: the keyed
    /// counterpart of `from_fields`. Entries with other names are ignored; a
    /// recognized name with a value of the wrong kind is an error naming it.
    pub fn new(kwargs: &Vec<(String, OptionValue)>) -> (r: Result<TextOptions, ValidationError>)
        ensures
            match keyed_fields(kwargs@) {
                Err(name) => r matches Err(e) && e@ == ErrorView::WrongType(name),
                Ok(f) => match build_options(f) {
                    Ok(v) => r matches Ok(o) && o@ == v,
                    Err(ev) => r matches Err(e) && e@ == ev,
                },
            },
            r matches Ok(o) ==> options_valid(o@),
    {
        proof {
            reveal_strlit("text");
            reveal_strlit("pitch");
            reveal_strlit("rate");
            reveal_strlit("style");
            reveal_strlit("role");
            reveal_strlit("style_degree");
            reveal_strlit("locale");
            reveal_strlit("voice");
        }
        let text = match text_option(kwargs, "text") {
            Ok(v) => v,
            Err(e) => return Err(e),
        };
        let pitch = match text_option(kwargs, "pitch") {
            Ok(v) => v,
            Err(e) => return Err(e),
        };
        let rate = match text_option(kwargs, "rate") {
            Ok(v) => v,
            Err(e) => return Err(e),
        };
        let style = match text_option(kwargs, "style") {
            Ok(v) => v,
            Err(e) => return Err(e),
        };
        let role = match find_entry(kwargs, "role") {
            None => None,
            Some(OptionValue::Role(r)) => Some(*r),
            Some(_) => return Err(ValidationError::WrongType(String::from_str("role"))),
        };
        let style_degree = match find_entry(kwargs, "style_degree") {
            None => None,
            Some(OptionValue::Number(d)) => Some(*d),
            Some(_) => return Err(ValidationError::WrongType(String::from_str("style_degree"))),
        };
        let locale = match text_option(kwargs, "locale") {
            Ok(v) => v,
            Err(e) => return Err(e),
        };
        let voice = match text_option(kwargs, "voice") {
            Ok(v) => v,
            Err(e) => return Err(e),
        };
        let fields = OptionFields { text, voice, locale, style, role, style_degree, pitch, rate };
        assert(fields@ == keyed_fields(kwargs@)->Ok_0);
        TextOptions::from_fields(fields)
    }

    pub fn text(&self) -> (r: &Option<String>)
        ensures
            opt_view(*r) == self@.text,
    {
        &self.text
    }

    pub fn voice(&self) -> (r: &Option<String>)
        ensures
            opt_view(*r) == self@.voice,
    {
        &self.voice
    }

    pub fn locale(&self) -> (r: &Option<String>)
        ensures
            opt_view(*r) == self@.locale,
    {
        &self.locale
    }

    pub fn style(&self) -> (r: &Option<String>)
        ensures
            opt_view(*r) == self@.style,
    {
        &self.style
    }

    pub fn role(&self) -> (r: Option<Role>)
        ensures
            r == self@.role,
    {
        self.role
    }

    pub fn style_degree(&self) -> (r: Option<StyleDegree>)
        ensures
            r == self@.style_degree,
    {
        self.style_degree
    }

    pub fn pitch(&self) -> (r: &Option<String>)
        ensures
            opt_view(*r) == self@.pitch,
    {
        &self.pitch
    }

    pub fn rate(&self) -> (r: &Option<String>)
        ensures
            opt_view(*r) == self@.rate,
    {
        &self.rate
    }
}

} // verus!
