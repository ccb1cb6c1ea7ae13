//! The markup compiler: one speech request to one SSML document.
//!
//! The document has a fixed shape:
//! `<speak ...><voice><mstts:express-as ...><prosody ...>TEXT</prosody></mstts:express-as></voice></speak>`,
//! after an XML declaration. Each optional attribute stands only when its field
//! is set; `style` always stands, `general` when unset.
use crate::degree::degree_text;
use crate::options::{opt_view, role_name, OptionsView, TextOptions};
use vstd::prelude::*;
use vstd::string::*;

verus! {

/// The entity that stands for `c` in attribute values and text, or `c` itself.
pub open spec fn escape_char(c: char) -> Seq<char> {
    if c == '<' {
        "&lt;"@
    } else if c == '>' {
        "&gt;"@
    } else if c == '"' {
        "&quot;"@
    } else if c == '\'' {
        "&apos;"@
    } else if c == '&' {
        "&amp;"@
    } else if c == '\n' {
        "&#xA;"@
    } else if c == '\r' {
        "&#xD;"@
    } else {
        seq![c]
    }
}

/// `s` with each character replaced by `escape_char` of it.
pub open spec fn escape_text(s: Seq<char>) -> Seq<char>
    decreases s.len(),
{
    if s.len() == 0 {
        Seq::empty()
    } else {
        escape_text(s.drop_last()) + escape_char(s.last())
    }
}

/// Relies on `xml::escape::escape_str_attribute`: it replaces each of `<`, `>`,
/// `"`, `'`, `&`, line feed and carriage return by its entity and keeps every
/// other character.
#[verifier::external_body]
fn escape(s: &str) -> (r: String)
    ensures
        r@ == escape_text(s@),
{
    xml::escape::escape_str_attribute(s).into_owned()
}

/// One attribute, as written in a start tag.
pub open spec fn attr_text(name: Seq<char>, value: Seq<char>) -> Seq<char> {
    " "@ + name + "=\""@ + escape_text(value) + "\""@
}

/// The attribute list that an optional value gives: empty when it is unset.
pub open spec fn opt_attr(name: Seq<char>, value: Option<Seq<char>>) -> Seq<
    (Seq<char>, Seq<char>),
> {
    match value {
        Some(v) => seq![(name, v)],
        None => Seq::empty(),
    }
}

/// The attributes of a list, as written in a start tag.
pub open spec fn attrs_text(a: Seq<(Seq<char>, Seq<char>)>) -> Seq<char>
    decreases a.len(),
{
    if a.len() == 0 {
        Seq::empty()
    } else {
        attrs_text(a.drop_last()) + attr_text(a.last().0, a.last().1)
    }
}

/// Whether an attribute list names `name`.
pub open spec fn has_attr(a: Seq<(Seq<char>, Seq<char>)>, name: Seq<char>) -> bool {
    exists|i: int| 0 <= i < a.len() && (#[trigger] a[i]).0 == name
}

pub open spec fn voice_attrs(o: OptionsView) -> Seq<(Seq<char>, Seq<char>)> {
    opt_attr("name"@, o.voice)
}

/// The style, `general` when unset.
pub open spec fn style_or_default(o: OptionsView) -> Seq<char> {
    match o.style {
        Some(s) => s,
        None => "general"@,
    }
}

pub open spec fn express_attrs(o: OptionsView) -> Seq<(Seq<char>, Seq<char>)> {
    opt_attr(
        "role"@,
        match o.role {
            Some(r) => Some(role_name(r)),
            None => None,
        },
    ) + opt_attr(
        "styledegree"@,
        match o.style_degree {
            Some(d) => Some(degree_text(d)),
            None => None,
        },
    ) + seq![("style"@, style_or_default(o))]
}

pub open spec fn prosody_attrs(o: OptionsView) -> Seq<(Seq<char>, Seq<char>)> {
    opt_attr("pitch"@, o.pitch) + opt_attr("rate"@, o.rate)
}

/// The document for a request whose text is set.
pub open spec fn ssml_text(o: OptionsView) -> Seq<char> {
    "<?xml version=\"1.0\" encoding=\"UTF-8\"?><speak xmlns=\"http://www.w3.org/2001/10/synthesis\" xmlns:emo=\"http://www.w3.org/2009/10/emotionml\" xmlns:mstts=\"http://www.w3.org/2001/mstts\" version=\"1.0\" xml:lang=\"en-US\">"@
        + "<voice"@ + attrs_text(voice_attrs(o)) + ">"@ + "<mstts:express-as"@ + attrs_text(
        express_attrs(o),
    ) + ">"@ + "<prosody"@ + attrs_text(prosody_attrs(o)) + ">"@ + escape_text(o.text->0)
        + "</prosody></mstts:express-as></voice></speak>"@
}

pub proof fn lemma_attrs_text_append(a: Seq<(Seq<char>, Seq<char>)>, b: Seq<(Seq<char>, Seq<char>)>)
    ensures
        attrs_text(a + b) == attrs_text(a) + attrs_text(b),
    decreases b.len(),
{
    if b.len() == 0 {
        assert(a + b =~= a);
        assert(attrs_text(b) == Seq::<char>::empty());
        assert(attrs_text(a) + attrs_text(b) =~= attrs_text(a));
    } else {
        lemma_attrs_text_append(a, b.drop_last());
        assert((a + b).drop_last() =~= a + b.drop_last());
        assert((a + b).last() == b.last());
        assert(attrs_text(a + b) =~= attrs_text(a) + attrs_text(b));
    }
}

/// Appends one attribute to a start tag.
fn attr(out: &mut String, name: &str, value: &str)
    ensures
        final(out)@ == old(out)@ + attr_text(name@, value@),
{
    out.append(" ");
    out.append(name);
    out.append("=\"");
    let escaped = escape(value);
    out.append(escaped.as_str());
    out.append("\"");
    assert(final(out)@ =~= old(out)@ + attr_text(name@, value@));
}

/// Appends an attribute to a start tag when its value is set.
fn optional_attr(out: &mut String, name: &str, value: Option<&str>)
    ensures
        final(out)@ == old(out)@ + attrs_text(
            opt_attr(
                name@,
                match value {
                    Some(v) => Some(v@),
                    None => None,
                },
            ),
        ),
{
    let ghost a = opt_attr(
        name@,
        match value {
            Some(v) => Some(v@),
            None => None,
        },
    );
    match value {
        Some(v) => {
            attr(out, name, v);
            assert(a.drop_last() =~= Seq::<(Seq<char>, Seq<char>)>::empty());
            assert(attrs_text(Seq::<(Seq<char>, Seq<char>)>::empty()) == Seq::<char>::empty());
            assert(a.last() == (name@, v@));
            assert(attrs_text(a) =~= attr_text(name@, v@));
        },
        None => {
            assert(old(out)@ + attrs_text(a) =~= old(out)@);
        },
    }
}

fn as_opt_str(o: &Option<String>) -> (r: Option<&str>)
    ensures
        match r {
            Some(v) => Some(v@),
            None => None,
        } == opt_view(*o),
{
    match o {
        Some(s) => Some(s.as_str()),
        None => None,
    }
}

/// Appends the start tag of `voice`.
fn voice_tag(out: &mut String, options: &TextOptions)
    ensures
        final(out)@ == old(out)@ + "<voice"@ + attrs_text(voice_attrs(options@)) + ">"@,
{
    out.append("<voice");
    optional_attr(out, "name", as_opt_str(options.voice()));
    out.append(">");
}

/// Appends the start tag of `mstts:express-as`.
fn express_tag(out: &mut String, options: &TextOptions)
    ensures
        final(out)@ == old(out)@ + "<mstts:express-as"@ + attrs_text(express_attrs(options@))
            + ">"@,
{
    let ghost o = options@;
    out.append("<mstts:express-as");
    let ghost start = out@;
    let role = match options.role() {
        Some(r) => Some(r.as_str()),
        None => None,
    };
    optional_attr(out, "role", role);
    let ghost after_role = out@;
    let degree = match options.style_degree() {
        Some(d) => Some(d.to_text()),
        None => None,
    };
    optional_attr(out, "styledegree", as_opt_str(&degree));
    let ghost after_degree = out@;
    let style = match options.style() {
        Some(s) => s.as_str(),
        None => "general",
    };
    attr(out, "style", style);
    proof {
        let a1 = opt_attr(
            "role"@,
            match o.role {
                Some(r) => Some(role_name(r)),
                None => None,
            },
        );
        let a2 = opt_attr(
            "styledegree"@,
            match o.style_degree {
                Some(d) => Some(degree_text(d)),
                None => None,
            },
        );
        let a3 = seq![("style"@, style_or_default(o))];
        lemma_attrs_text_append(a1, a2);
        lemma_attrs_text_append(a1 + a2, a3);
        assert(a3.drop_last() =~= Seq::<(Seq<char>, Seq<char>)>::empty());
        assert(attrs_text(Seq::<(Seq<char>, Seq<char>)>::empty()) == Seq::<char>::empty());
        assert(attrs_text(a3) =~= attr_text("style"@, style_or_default(o)));
        assert(after_role == start + attrs_text(a1));
        assert(after_degree == after_role + attrs_text(a2));
        assert(out@ == after_degree + attrs_text(a3));
        assert(out@ =~= start + attrs_text(express_attrs(o)));
    }
    out.append(">");
}

/// Appends the start tag of `prosody`.
fn prosody_tag(out: &mut String, options: &TextOptions)
    ensures
        final(out)@ == old(out)@ + "<prosody"@ + attrs_text(prosody_attrs(options@)) + ">"@,
{
    let ghost o = options@;
    out.append("<prosody");
    let ghost start = out@;
    optional_attr(out, "pitch", as_opt_str(options.pitch()));
    optional_attr(out, "rate", as_opt_str(options.rate()));
    proof {
        lemma_attrs_text_append(opt_attr("pitch"@, o.pitch), opt_attr("rate"@, o.rate));
        assert(out@ =~= start + attrs_text(prosody_attrs(o)));
    }
    out.append(">");
}

/// Compiles a speech request into its SSML document.
pub fn interpolate_ssml(options: &TextOptions) -> (r: String)
    requires
        options@.text is Some,
    ensures
        r@ == ssml_text(options@),
{
    let mut out = String::from_str(
        "<?xml version=\"1.0\" encoding=\"UTF-8\"?><speak xmlns=\"http://www.w3.org/2001/10/synthesis\" xmlns:emo=\"http://www.w3.org/2009/10/emotionml\" xmlns:mstts=\"http://www.w3.org/2001/mstts\" version=\"1.0\" xml:lang=\"en-US\">",
    );
    voice_tag(&mut out, options);
    express_tag(&mut out, options);
    prosody_tag(&mut out, options);
    let text = match options.text() {
        Some(t) => t.as_str(),
        None => "",
    };
    let escaped = escape(text);
    out.append(escaped.as_str());
    out.append("</prosody></mstts:express-as></voice></speak>");
    assert(out@ =~= ssml_text(options@));
    out
}

/// Compiling is a function of the request: two requests that hold the same
/// values give byte-identical documents.
pub proof fn law_compile_deterministic(a: OptionsView, b: OptionsView, ra: Seq<char>, rb: Seq<char>)
    requires
        a == b,
        ra == ssml_text(a),
        rb == ssml_text(b),
    ensures
        ra == rb,
{
}

/// An unset optional field gives no attribute in its element, and `style`
/// always stands, with the request's style or `general`.
pub proof fn law_omission(o: OptionsView)
    ensures
        o.voice is None ==> !has_attr(voice_attrs(o), "name"@),
        o.role is None ==> !has_attr(express_attrs(o), "role"@),
        o.style_degree is None ==> !has_attr(express_attrs(o), "styledegree"@),
        o.pitch is None ==> !has_attr(prosody_attrs(o), "pitch"@),
        o.rate is None ==> !has_attr(prosody_attrs(o), "rate"@),
        express_attrs(o).last() == ("style"@, style_or_default(o)),
        o.style is None ==> style_or_default(o) == "general"@,
{
    reveal_strlit("name");
    reveal_strlit("role");
    reveal_strlit("styledegree");
    reveal_strlit("style");
    reveal_strlit("pitch");
    reveal_strlit("rate");
    let e = express_attrs(o);
    if o.role is None {
        if o.style_degree is None {
            assert(e =~= seq![("style"@, style_or_default(o))]);
        } else {
            assert(e.len() == 2);
            assert(e[0].0 == "styledegree"@);
        }
        assert forall|i: int| 0 <= i < e.len() implies (#[trigger] e[i]).0 != "role"@ by {
            assert(e[i].0 == "styledegree"@ || e[i].0 == "style"@);
        }
    }
    if o.style_degree is None {
        assert forall|i: int| 0 <= i < e.len() implies (#[trigger] e[i]).0 != "styledegree"@ by {
            assert(e[i].0 == "role"@ || e[i].0 == "style"@);
        }
    }
    let p = prosody_attrs(o);
    if o.pitch is None {
        assert forall|i: int| 0 <= i < p.len() implies (#[trigger] p[i]).0 != "pitch"@ by {
            assert(p[i].0 == "rate"@);
        }
    }
    if o.rate is None {
        assert forall|i: int| 0 <= i < p.len() implies (#[trigger] p[i]).0 != "rate"@ by {
            assert(p[i].0 == "pitch"@);
        }
    }
}

/// Escaped text holds no `<`, `>` or `"`: in the document each of them stands
/// only as its entity.
pub proof fn law_escaped_text(s: Seq<char>)
    ensures
        forall|i: int|
            0 <= i < escape_text(s).len() ==> {
                let c = #[trigger] escape_text(s)[i];
                c != '<' && c != '>' && c != '"'
            },
    decreases s.len(),
{
    if s.len() > 0 {
        law_escaped_text(s.drop_last());
        let e = escape_char(s.last());
        reveal_strlit("&lt;");
        reveal_strlit("&gt;");
        reveal_strlit("&quot;");
        reveal_strlit("&apos;");
        reveal_strlit("&amp;");
        reveal_strlit("&#xA;");
        reveal_strlit("&#xD;");
        let p = escape_text(s.drop_last());
        assert forall|i: int| 0 <= i < escape_text(s).len() implies {
            let c = #[trigger] escape_text(s)[i];
            c != '<' && c != '>' && c != '"'
        } by {
            if i < p.len() {
                assert(escape_text(s)[i] == p[i]);
            } else {
                assert(escape_text(s)[i] == e[i - p.len()]);
            }
        }
    }
}

} // verus!
