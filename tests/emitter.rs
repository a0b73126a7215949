use xml_emitter::config::{EmitterConfig, XmlVersion};
use xml_emitter::emitter::{new, Emitter};
use xml_emitter::error::{error, io_error, io_wrap, EmitterErrorKind};
use xml_emitter::name::{Attribute, Name};
use xml_emitter::namespace::Namespace;

fn pretty() -> Emitter {
    new(EmitterConfig::new().with_indent("\n", "  "))
}

fn text(out: &Vec<u8>) -> String {
    String::from_utf8(out.clone()).unwrap()
}

const DECL: &str = "<?xml version=\"1.0\" encoding=\"utf-8\"?>";

#[test]
fn start_document_then_element() {
    let mut e = pretty();
    let mut out = Vec::new();
    e.emit_start_document(&mut out, XmlVersion::Version10, "utf-8", None).unwrap();
    e.emit_start_element(&mut out, &Name::local("a"), &[], &Namespace::empty()).unwrap();
    e.emit_end_element(&mut out, None).unwrap();
    assert_eq!(text(&out), format!("{}\n<a></a>", DECL));
}

#[test]
fn nested_elements_with_text() {
    let mut e = pretty();
    let mut out = Vec::new();
    e.emit_start_element(&mut out, &Name::local("a"), &[], &Namespace::empty()).unwrap();
    e.emit_start_element(&mut out, &Name::local("b"), &[], &Namespace::empty()).unwrap();
    e.emit_characters(&mut out, "hi").unwrap();
    e.emit_end_element(&mut out, None).unwrap();
    e.emit_end_element(&mut out, None).unwrap();
    assert_eq!(text(&out), format!("{}\n<a>\n  <b>hi</b>\n</a>", DECL));
}

#[test]
fn empty_element_escapes_attribute() {
    let mut e = pretty();
    let mut out = Vec::new();
    let attrs = vec![Attribute::new(Name::local("k"), "a<b")];
    e.emit_empty_element(&mut out, &Name::local("x"), &attrs, &Namespace::empty()).unwrap();
    assert_eq!(text(&out), format!("{}\n<x k=\"a&lt;b\"/>", DECL));
}

#[test]
fn prefixed_element_declares_namespace() {
    let mut e = pretty();
    let mut out = Vec::new();
    let name = Name::qualified("a", "u1", Some("p"));
    e.emit_start_element(&mut out, &name, &[], &Namespace::empty()).unwrap();
    e.emit_end_element(&mut out, None).unwrap();
    assert!(text(&out).ends_with("<p:a xmlns:p=\"u1\"></p:a>"));
}

#[test]
fn cdata_with_terminator_is_rejected() {
    let mut e = pretty();
    let mut out = Vec::new();
    e.emit_start_element(&mut out, &Name::local("a"), &[], &Namespace::empty()).unwrap();
    let before = out.len();
    let r = e.emit_cdata(&mut out, "x]]>y");
    assert_eq!(r.err().unwrap().kind(), EmitterErrorKind::InvalidPayload);
    assert_eq!(out.len(), before);
}

#[test]
fn end_element_name_mismatch() {
    let mut e = pretty();
    let mut out = Vec::new();
    e.emit_start_element(&mut out, &Name::local("a"), &[], &Namespace::empty()).unwrap();
    e.emit_start_element(&mut out, &Name::local("b"), &[], &Namespace::empty()).unwrap();
    let before = out.len();
    let r = e.emit_end_element(&mut out, Some(&Name::local("c")));
    assert_eq!(r.err().unwrap().kind(), EmitterErrorKind::EndElementMismatch);
    assert_eq!(out.len(), before);
    e.emit_end_element(&mut out, Some(&Name::local("b"))).unwrap();
}

#[test]
fn second_start_document_fails_without_output() {
    let mut e = pretty();
    let mut out = Vec::new();
    e.emit_start_document(&mut out, XmlVersion::Version11, "utf-8", Some(true)).unwrap();
    assert_eq!(text(&out), "<?xml version=\"1.1\" encoding=\"utf-8\" standalone=\"yes\"?>");
    let before = out.len();
    let r = e.emit_start_document(&mut out, XmlVersion::Version10, "utf-8", None);
    assert_eq!(r.err().unwrap().kind(), EmitterErrorKind::DocumentStartAlreadyEmitted);
    assert_eq!(out.len(), before);
}

#[test]
fn start_document_after_markup_fails() {
    let mut e = new(EmitterConfig::new());
    let mut out = Vec::new();
    e.emit_processing_instruction(&mut out, "pi", Some("data")).unwrap();
    let r = e.emit_start_document(&mut out, XmlVersion::Version10, "utf-8", None);
    assert_eq!(r.err().unwrap().kind(), EmitterErrorKind::DocumentStartAlreadyEmitted);
    assert_eq!(text(&out), format!("{}<?pi data?>", DECL));
}

#[test]
fn compact_output_has_no_line_breaks() {
    let mut e = new(EmitterConfig::new());
    let mut out = Vec::new();
    e.emit_start_element(&mut out, &Name::local("a"), &[], &Namespace::empty()).unwrap();
    e.emit_empty_element(&mut out, &Name::local("b"), &[], &Namespace::empty()).unwrap();
    e.emit_end_element(&mut out, None).unwrap();
    assert_eq!(text(&out), format!("{}<a><b/></a>", DECL));
}

#[test]
fn pretty_children_are_indented() {
    let mut e = pretty();
    let mut out = Vec::new();
    e.emit_start_element(&mut out, &Name::local("a"), &[], &Namespace::empty()).unwrap();
    e.emit_start_element(&mut out, &Name::local("b"), &[], &Namespace::empty()).unwrap();
    e.emit_empty_element(&mut out, &Name::local("c"), &[], &Namespace::empty()).unwrap();
    e.emit_end_element(&mut out, None).unwrap();
    e.emit_end_element(&mut out, None).unwrap();
    assert_eq!(text(&out), format!("{}\n<a>\n  <b>\n    <c/>\n  </b>\n</a>", DECL));
}

#[test]
fn no_declaration_when_disabled() {
    let mut cfg = EmitterConfig::new();
    cfg.write_document_declaration = false;
    let mut e = new(cfg);
    let mut out = Vec::new();
    e.emit_start_element(&mut out, &Name::local("a"), &[], &Namespace::empty()).unwrap();
    e.emit_end_element(&mut out, None).unwrap();
    assert_eq!(text(&out), "<a></a>");
    let r = e.emit_start_document(&mut out, XmlVersion::Version10, "utf-8", None);
    assert_eq!(r.err().unwrap().kind(), EmitterErrorKind::DocumentStartAlreadyEmitted);
}

#[test]
fn namespace_not_redeclared_in_child() {
    let mut e = new(EmitterConfig::new());
    let mut out = Vec::new();
    e.emit_start_element(&mut out, &Name::qualified("a", "u1", Some("p")), &[], &Namespace::empty())
        .unwrap();
    e.emit_start_element(&mut out, &Name::qualified("b", "u1", Some("p")), &[], &Namespace::empty())
        .unwrap();
    e.emit_start_element(&mut out, &Name::qualified("c", "u2", Some("p")), &[], &Namespace::empty())
        .unwrap();
    e.emit_end_element(&mut out, None).unwrap();
    e.emit_end_element(&mut out, None).unwrap();
    e.emit_end_element(&mut out, None).unwrap();
    assert_eq!(
        text(&out),
        format!("{}<p:a xmlns:p=\"u1\"><p:b><p:c xmlns:p=\"u2\"></p:c></p:b></p:a>", DECL)
    );
}

#[test]
fn default_namespace_and_mapping() {
    let mut e = new(EmitterConfig::new());
    let mut out = Vec::new();
    let mut ns = Namespace::empty();
    ns.put("q", "u3");
    ns.put("xml", "http://www.w3.org/XML/1998/namespace");
    let attrs = vec![Attribute::new(Name::qualified("k", "u4", Some("r")), "v")];
    e.emit_empty_element(&mut out, &Name::qualified("a", "u0", None), &attrs, &ns).unwrap();
    assert_eq!(
        text(&out),
        format!("{}<a xmlns=\"u0\" xmlns:q=\"u3\" xmlns:r=\"u4\" r:k=\"v\"/>", DECL)
    );
    assert_eq!(e.namespace_stack().declarations_of_top().len(), 0);
}

#[test]
fn attribute_value_escaping() {
    let mut e = new(EmitterConfig::new());
    let mut out = Vec::new();
    let attrs = vec![Attribute::new(Name::local("k"), "&\"\n\r\t>")];
    e.emit_empty_element(&mut out, &Name::local("x"), &attrs, &Namespace::empty()).unwrap();
    assert_eq!(
        text(&out),
        format!("{}<x k=\"&amp;&quot;&#xA;&#xD;&#x9;&gt;\"/>", DECL)
    );
}

#[test]
fn characters_are_escaped() {
    let mut e = new(EmitterConfig::new());
    let mut out = Vec::new();
    e.emit_start_element(&mut out, &Name::local("a"), &[], &Namespace::empty()).unwrap();
    e.emit_characters(&mut out, "1 < 2 & \"3\" > 0").unwrap();
    e.emit_end_element(&mut out, None).unwrap();
    assert_eq!(text(&out), format!("{}<a>1 &lt; 2 &amp; \"3\" &gt; 0</a>", DECL));
}

#[test]
fn cdata_written_raw_or_as_characters() {
    let mut e = new(EmitterConfig::new());
    let mut out = Vec::new();
    e.emit_start_element(&mut out, &Name::local("a"), &[], &Namespace::empty()).unwrap();
    e.emit_cdata(&mut out, "x<y").unwrap();
    e.emit_end_element(&mut out, None).unwrap();
    assert_eq!(text(&out), format!("{}<a><![CDATA[x<y]]></a>", DECL));

    let mut cfg = EmitterConfig::new();
    cfg.cdata_to_characters = true;
    let mut e = new(cfg);
    let mut out = Vec::new();
    e.emit_start_element(&mut out, &Name::local("a"), &[], &Namespace::empty()).unwrap();
    e.emit_cdata(&mut out, "x]]>y").unwrap();
    e.emit_end_element(&mut out, None).unwrap();
    assert_eq!(text(&out), format!("{}<a>x]]&gt;y</a>", DECL));
}

#[test]
fn whitespace_events() {
    let mut e = pretty();
    let mut out = Vec::new();
    e.emit_start_element(&mut out, &Name::local("a"), &[], &Namespace::empty()).unwrap();
    let before = out.len();
    let r = e.emit_whitespace(&mut out, " x ");
    assert_eq!(r.err().unwrap().kind(), EmitterErrorKind::InvalidWhitespaceEvent);
    assert_eq!(out.len(), before);
    e.emit_whitespace(&mut out, " \t").unwrap();
    e.emit_end_element(&mut out, None).unwrap();
    assert_eq!(text(&out), format!("{}\n<a> \t</a>", DECL));
}

#[test]
fn text_events_outside_element_are_unexpected() {
    let mut e = new(EmitterConfig::new());
    let mut out = Vec::new();
    assert_eq!(e.emit_characters(&mut out, "x").err().unwrap().kind(), EmitterErrorKind::UnexpectedEvent);
    assert_eq!(e.emit_cdata(&mut out, "x").err().unwrap().kind(), EmitterErrorKind::UnexpectedEvent);
    assert_eq!(e.emit_whitespace(&mut out, " ").err().unwrap().kind(), EmitterErrorKind::UnexpectedEvent);
    assert_eq!(e.emit_end_element(&mut out, None).err().unwrap().kind(), EmitterErrorKind::UnexpectedEvent);
    assert!(out.is_empty());
}

#[test]
fn element_after_root_is_unexpected() {
    let mut e = new(EmitterConfig::new());
    let mut out = Vec::new();
    e.emit_empty_element(&mut out, &Name::local("a"), &[], &Namespace::empty()).unwrap();
    e.emit_start_element(&mut out, &Name::local("r"), &[], &Namespace::empty()).unwrap();
    e.emit_end_element(&mut out, None).unwrap();
    let r = e.emit_start_element(&mut out, &Name::local("b"), &[], &Namespace::empty());
    assert_eq!(r.err().unwrap().kind(), EmitterErrorKind::UnexpectedEvent);
    e.emit_processing_instruction(&mut out, "end", None).unwrap();
    assert_eq!(text(&out), format!("{}<a/><r></r><?end?>", DECL));
}

#[test]
fn invalid_names_and_payloads() {
    let mut e = new(EmitterConfig::new());
    let mut out = Vec::new();
    let r = e.emit_start_element(&mut out, &Name::local("1a"), &[], &Namespace::empty());
    assert_eq!(r.err().unwrap().kind(), EmitterErrorKind::InvalidName);
    let r = e.emit_start_element(&mut out, &Name::local(""), &[], &Namespace::empty());
    assert_eq!(r.err().unwrap().kind(), EmitterErrorKind::InvalidName);
    let attrs = vec![Attribute::new(Name::local("k"), "a\u{1}b")];
    let r = e.emit_empty_element(&mut out, &Name::local("x"), &attrs, &Namespace::empty());
    assert_eq!(r.err().unwrap().kind(), EmitterErrorKind::InvalidPayload);
    let r = e.emit_processing_instruction(&mut out, "p", Some("a?>b"));
    assert_eq!(r.err().unwrap().kind(), EmitterErrorKind::InvalidPayload);
    let r = e.emit_processing_instruction(&mut out, "p q", None);
    assert_eq!(r.err().unwrap().kind(), EmitterErrorKind::InvalidName);
    assert!(out.is_empty());
}

#[test]
fn unchecked_end_names_are_written() {
    let mut cfg = EmitterConfig::new();
    cfg.keep_element_names_stack = false;
    let mut e = new(cfg);
    let mut out = Vec::new();
    e.emit_start_element(&mut out, &Name::local("a"), &[], &Namespace::empty()).unwrap();
    e.emit_end_element(&mut out, Some(&Name::local("z"))).unwrap();
    assert_eq!(text(&out), format!("{}<a></z>", DECL));
}

#[test]
fn errors_carry_kind_and_cause() {
    let e = error(EmitterErrorKind::InvalidName, "bad");
    assert_eq!(e.kind(), EmitterErrorKind::InvalidName);
    assert_eq!(e.message(), "bad");
    let io = io_error(std::io::Error::new(std::io::ErrorKind::Other, "sink"));
    assert_eq!(io.kind(), EmitterErrorKind::IoError);
    assert!(io.cause.is_some());
    let ok: Result<u8, std::io::Error> = Ok(3);
    assert_eq!(io_wrap(ok).ok(), Some(3));
    let bad: Result<u8, std::io::Error> = Err(std::io::Error::new(std::io::ErrorKind::Other, "x"));
    assert_eq!(io_wrap(bad).err().unwrap().kind(), EmitterErrorKind::IoError);
}

#[test]
fn attributes_sorted_by_qualified_name() {
    let mut e = new(EmitterConfig::new());
    let mut out = Vec::new();
    let attrs = vec![
        Attribute::new(Name::local("z"), "1"),
        Attribute::new(Name::local("a"), "2"),
        Attribute::new(Name::qualified("b", "u", Some("p")), "4"),
        Attribute::new(Name::local("m"), "3"),
    ];
    e.emit_empty_element(&mut out, &Name::local("x"), &attrs, &Namespace::empty()).unwrap();
    assert_eq!(
        text(&out),
        format!("{}<x xmlns:p=\"u\" a=\"2\" m=\"3\" p:b=\"4\" z=\"1\"/>", DECL)
    );
}

#[test]
fn declarations_sorted_by_prefix() {
    let mut e = new(EmitterConfig::new());
    let mut out = Vec::new();
    let mut ns = Namespace::empty();
    ns.put("zz", "u1");
    ns.put("b", "u2");
    ns.put("", "u3");
    ns.put("a", "u4");
    e.emit_empty_element(&mut out, &Name::local("x"), &[], &ns).unwrap();
    assert_eq!(
        text(&out),
        format!("{}<x xmlns=\"u3\" xmlns:a=\"u4\" xmlns:b=\"u2\" xmlns:zz=\"u1\"/>", DECL)
    );
}

#[test]
fn namespace_uri_is_escaped() {
    let mut e = new(EmitterConfig::new());
    let mut out = Vec::new();
    e.emit_empty_element(&mut out, &Name::qualified("x", "a&b", Some("p")), &[], &Namespace::empty())
        .unwrap();
    assert_eq!(text(&out), format!("{}<p:x xmlns:p=\"a&amp;b\"/>", DECL));
}
