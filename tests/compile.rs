use aspeak::degree::StyleDegree;
use aspeak::options::{OptionFields, Role, TextOptions};
use aspeak::ssml::interpolate_ssml;
use xml::writer::{EventWriter, XmlEvent};

const HEAD: &str = "<?xml version=\"1.0\" encoding=\"UTF-8\"?><speak xmlns=\"http://www.w3.org/2001/10/synthesis\" xmlns:emo=\"http://www.w3.org/2009/10/emotionml\" xmlns:mstts=\"http://www.w3.org/2001/mstts\" version=\"1.0\" xml:lang=\"en-US\">";

fn fields(text: &str) -> OptionFields {
    OptionFields {
        text: Some(text.to_string()),
        voice: None,
        locale: None,
        style: None,
        role: None,
        style_degree: None,
        pitch: None,
        rate: None,
    }
}

fn compile(f: OptionFields) -> String {
    interpolate_ssml(&TextOptions::from_fields(f).unwrap())
}

fn reparsed_text(doc: &str) -> String {
    let mut reader = xml::reader::EventReader::new(doc.as_bytes());
    let mut text = String::new();
    loop {
        match reader.next().unwrap() {
            xml::reader::XmlEvent::Characters(s) => text.push_str(&s),
            xml::reader::XmlEvent::EndDocument => break,
            _ => {}
        }
    }
    text
}

#[test]
fn plain_text_has_no_optional_attributes() {
    let doc = compile(fields("Hello"));
    let expected = format!(
        "{HEAD}<voice><mstts:express-as style=\"general\"><prosody>Hello</prosody></mstts:express-as></voice></speak>"
    );
    assert_eq!(doc, expected);
    assert!(doc.contains("<voice>"));
    assert!(doc.contains("<mstts:express-as style=\"general\">"));
    assert!(doc.contains("<prosody>Hello</prosody>"));
    for name in ["name=", "role=", "styledegree=", "pitch=", "rate="] {
        assert!(!doc.contains(name), "{name} should be absent");
    }
}

#[test]
fn voice_role_and_degree_are_written() {
    let mut f = fields("Hi");
    f.style_degree = Some(StyleDegree::new(false, 15, 1));
    f.role = Some(Role::Girl);
    f.voice = Some("en-US-JennyNeural".to_string());
    let doc = compile(f);
    assert!(doc.contains("styledegree=\"1.5\""));
    assert!(doc.contains("role=\"Girl\""));
    assert!(doc.contains("name=\"en-US-JennyNeural\""));
    let expected = format!(
        "{HEAD}<voice name=\"en-US-JennyNeural\"><mstts:express-as role=\"Girl\" styledegree=\"1.5\" style=\"general\"><prosody>Hi</prosody></mstts:express-as></voice></speak>"
    );
    assert_eq!(doc, expected);
}

#[test]
fn degree_from_float_text_is_written_as_given() {
    let mut f = fields("Hi");
    f.style_degree = StyleDegree::parse(&1.5f32.to_string());
    let doc = compile(f);
    assert!(doc.contains("styledegree=\"1.5\""));
}

#[test]
fn compiling_twice_gives_identical_output() {
    let mut f = fields("Same <text> & more");
    f.pitch = Some("+10Hz".to_string());
    f.rate = Some("0.5".to_string());
    f.style = Some("cheerful".to_string());
    let options = TextOptions::from_fields(f).unwrap();
    assert_eq!(interpolate_ssml(&options), interpolate_ssml(&options));
}

#[test]
fn each_unset_field_leaves_no_attribute() {
    let mut f = fields("x");
    f.pitch = Some("high".to_string());
    let doc = compile(f);
    assert!(doc.contains("<prosody pitch=\"high\">"));
    assert!(!doc.contains("rate="));
    assert!(!doc.contains("name="));
    assert!(doc.contains("style=\"general\""));

    let mut g = fields("x");
    g.rate = Some("slow".to_string());
    g.style = Some("sad".to_string());
    let doc = compile(g);
    assert!(doc.contains("<prosody rate=\"slow\">"));
    assert!(!doc.contains("pitch="));
    assert!(doc.contains("style=\"sad\""));
    assert!(!doc.contains("general"));
}

#[test]
fn markup_in_text_is_escaped_and_reads_back() {
    let text = "a<b & \"c\" > d";
    let doc = compile(fields(text));
    assert!(doc.contains("a&lt;b &amp; &quot;c&quot; &gt; d"));
    let body = &doc[HEAD.len()..];
    assert!(!body.contains("a<b"));
    assert!(!body.contains("\"c\""));
    assert_eq!(reparsed_text(&doc), text);
}

#[test]
fn attribute_values_are_escaped() {
    let mut f = fields("t");
    f.voice = Some("a\"b<c".to_string());
    let doc = compile(f);
    assert!(doc.contains("name=\"a&quot;b&lt;c\""));
}

#[test]
fn all_attributes_in_schema_order() {
    let mut f = fields("All");
    f.voice = Some("v".to_string());
    f.role = Some(Role::SeniorMale);
    f.style_degree = Some(StyleDegree::new(false, 2, 0));
    f.style = Some("calm".to_string());
    f.pitch = Some("-0.2".to_string());
    f.rate = Some("1.5f".to_string());
    let doc = compile(f);
    let expected = format!(
        "{HEAD}<voice name=\"v\"><mstts:express-as role=\"SeniorMale\" styledegree=\"2\" style=\"calm\"><prosody pitch=\"-20.00%\" rate=\"1.5\">All</prosody></mstts:express-as></voice></speak>"
    );
    assert_eq!(doc, expected);
}

#[test]
fn output_matches_xml_event_writer() {
    let mut f = fields("Hello & goodbye");
    f.voice = Some("en-US-GuyNeural".to_string());
    f.role = Some(Role::Boy);
    f.style_degree = Some(StyleDegree::new(false, 1, 2));
    f.pitch = Some("low".to_string());
    f.rate = Some("fast".to_string());
    let doc = compile(f);

    let mut buf = Vec::new();
    let mut w = EventWriter::new(&mut buf);
    w.write(
        XmlEvent::start_element("speak")
            .default_ns("http://www.w3.org/2001/10/synthesis")
            .ns("mstts", "http://www.w3.org/2001/mstts")
            .ns("emo", "http://www.w3.org/2009/10/emotionml")
            .attr("version", "1.0")
            .attr("xml:lang", "en-US"),
    )
    .unwrap();
    w.write(XmlEvent::start_element("voice").attr("name", "en-US-GuyNeural")).unwrap();
    w.write(
        XmlEvent::start_element("mstts:express-as")
            .attr("role", "Boy")
            .attr("styledegree", "0.01")
            .attr("style", "general"),
    )
    .unwrap();
    w.write(XmlEvent::start_element("prosody").attr("pitch", "low").attr("rate", "fast")).unwrap();
    w.write(XmlEvent::characters("Hello & goodbye")).unwrap();
    for _ in 0..4 {
        w.write(XmlEvent::end_element()).unwrap();
    }
    assert_eq!(doc, String::from_utf8(buf).unwrap());
}
