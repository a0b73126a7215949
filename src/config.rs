use vstd::prelude::*;
use crate::name::bytes_of;
use vstd::string::StringSliceAdditionalSpecFns;

verus! {

/// The XML version written in a declaration.
#[derive(Clone, Copy, Debug, PartialEq, Eq, Structural)]
pub enum XmlVersion {
    Version10,
    Version11,
}

/// How an emitter writes; fixed when the emitter is made.
pub struct EmitterConfig {
    /// Written before each new line in pretty mode.
    pub line_separator: Vec<u8>,
    /// One level of indentation in pretty mode.
    pub indent_string: Vec<u8>,
    /// Pretty-print: break lines and indent between markup.
    pub perform_indent: bool,
    /// Write `<?xml version="1.0" encoding="utf-8"?>` before the first markup
    /// when no declaration was asked for.
    pub write_document_declaration: bool,
    /// Write CDATA events as escaped character data.
    pub cdata_to_characters: bool,
    /// Check the name given to an end-element event against the open element.
    pub keep_element_names_stack: bool,
}

impl EmitterConfig {
    /// The defaults: `"\n"` and two spaces, compact output, automatic
    /// declaration, CDATA kept, end-element names checked.
    pub fn new() -> (r: EmitterConfig)
        ensures
            r.line_separator@ == seq![10u8],
            r.indent_string@ == seq![32u8, 32u8],
            !r.perform_indent,
            r.write_document_declaration,
            !r.cdata_to_characters,
            r.keep_element_names_stack,
    {
        EmitterConfig {
            line_separator: vec![10u8],
            indent_string: vec![32u8, 32u8],
            perform_indent: false,
            write_document_declaration: true,
            cdata_to_characters: false,
            keep_element_names_stack: true,
        }
    }

    /// The same configuration, pretty-printing with the given line separator
    /// and indentation unit.
    pub fn with_indent(self, line_separator: &str, indent_string: &str) -> (r: EmitterConfig)
        ensures
            r.line_separator@ == line_separator.spec_bytes(),
            r.indent_string@ == indent_string.spec_bytes(),
            r.perform_indent,
            r.write_document_declaration == self.write_document_declaration,
            r.cdata_to_characters == self.cdata_to_characters,
            r.keep_element_names_stack == self.keep_element_names_stack,
    {
        EmitterConfig {
            line_separator: bytes_of(line_separator),
            indent_string: bytes_of(indent_string),
            perform_indent: true,
            ..self
        }
    }
}

} // verus!
