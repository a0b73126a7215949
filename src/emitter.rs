use vstd::prelude::*;
use vstd::string::StringSliceAdditionalSpecFns;
use crate::config::{EmitterConfig, XmlVersion};
use crate::error::{error, EmitterErrorKind, EmitterResult};
use crate::escape::{escape, write_escaped};
use crate::markup::{
    all_allowed, all_whitespace, attr_names_valid, attr_values_allowed, attrs_bytes, candidates,
    check_allowed, check_attr_names, check_attr_values, check_whitespace, collect_candidates,
    decl_bytes, decls_bytes, default_decl, find_cdata_end, find_pi_end, has_cdata_end, has_pi_end,
    pi_bytes, sort_by_qname, write_decl, write_decl_attrs, write_pi, write_sorted_attributes,
};
use crate::name::{append_bytes, check_ncname, copy_vec, is_ncname, Attribute, Name};
use crate::namespace::{
    check_reserved, is_reserved, lemma_no_redundant_declaration, new_decls, resolve,
    sort_bindings, sort_by_prefix, view_bindings, Binding, Namespace, NamespaceStack,
};

verus! {

/// What was last written directly inside an element (or the document).
#[derive(Clone, Copy, Debug, PartialEq, Eq, Structural)]
pub enum IndentState {
    Nothing,
    Markup,
    Text,
}

/// `n` copies of the indentation unit.
pub open spec fn indents(unit: Seq<u8>, n: nat) -> Seq<u8>
    decreases n,
{
    if n == 0 {
        Seq::empty()
    } else {
        indents(unit, (n - 1) as nat) + unit
    }
}

/// A line break followed by `n` indentation units.
pub open spec fn newline(cfg: EmitterConfig, n: nat) -> Seq<u8> {
    cfg.line_separator@ + indents(cfg.indent_string@, n)
}

/// What pretty-printing writes before markup at nesting `level`, when the
/// current frame is `top`: nothing after text or at the very start, else a
/// new line indented to the level.
pub open spec fn markup_gap(cfg: EmitterConfig, top: IndentState, level: nat) -> Seq<u8> {
    if cfg.perform_indent && top != IndentState::Text && (top == IndentState::Markup || level > 0) {
        newline(cfg, level)
    } else {
        Seq::empty()
    }
}

/// What pretty-printing writes before an end tag: a new line indented to
/// the parent's level when the element holds markup and no text.
pub open spec fn end_gap(cfg: EmitterConfig, top: IndentState, level: nat) -> Seq<u8> {
    if cfg.perform_indent && top == IndentState::Markup && level > 0 {
        newline(cfg, (level - 1) as nat)
    } else {
        Seq::empty()
    }
}

/// The emitter: its configuration, the namespace stack, one indentation frame
/// per open element plus the document's, and the names of the open elements.
pub struct Emitter {
    config: EmitterConfig,
    nst: NamespaceStack,
    indent_level: usize,
    indent_stack: Vec<IndentState>,
    element_names: Vec<Name>,
    start_document_emitted: bool,
    document_finished: bool,
}

/// Makes an emitter in the initial state, before the document.
pub fn new(config: EmitterConfig) -> (r: Emitter)
    ensures
        r.wf(),
        r.cfg() == config,
        !r.started(),
        !r.finished(),
        r.depth() == 0,
        r.indent_frames() == seq![IndentState::Nothing],
        r.ns().scope() == Seq::<(Seq<u8>, Seq<u8>)>::empty(),
{
    let r = Emitter {
        config: config,
        nst: NamespaceStack::empty(),
        indent_level: 0,
        indent_stack: vec![IndentState::Nothing],
        element_names: Vec::new(),
        start_document_emitted: false,
        document_finished: false,
    };
    assert(r.indent_stack@ =~= seq![IndentState::Nothing]);
    assert(r.open_names() =~= Seq::<Seq<u8>>::empty());
    r
}

/// Records in the top frame of `nst` the namespace declarations that an
/// element needs for `cands`, and returns them in the order they were made.
fn declare_namespaces(nst: &mut NamespaceStack, cands: &[Binding]) -> (r: Vec<Binding>)
    requires
        old(nst).wf(),
    ensures
        final(nst).wf(),
        final(nst).depth() == old(nst).depth(),
        final(nst).enclosing() == old(nst).enclosing(),
        final(nst).frame_starts() == old(nst).frame_starts(),
        final(nst).scope() == old(nst).scope() + new_decls(old(nst).scope(), view_bindings(cands@)),
        view_bindings(r@) == new_decls(old(nst).scope(), view_bindings(cands@)),
{
    let ghost s0 = nst.scope();
    let ghost vc = view_bindings(cands@);
    let mut r: Vec<Binding> = Vec::new();
    let mut i: usize = 0;
    assert(vc.take(0) =~= Seq::<(Seq<u8>, Seq<u8>)>::empty());
    assert(s0 + new_decls(s0, vc.take(0)) =~= s0);
    assert(view_bindings(r@) =~= new_decls(s0, vc.take(0)));
    while i < cands.len()
        invariant
            i <= cands@.len(),
            vc == view_bindings(cands@),
            nst.wf(),
            nst.depth() == old(nst).depth(),
            nst.enclosing() == old(nst).enclosing(),
            nst.frame_starts() == old(nst).frame_starts(),
            nst.scope() == s0 + new_decls(s0, vc.take(i as int)),
            view_bindings(r@) == new_decls(s0, vc.take(i as int)),
        decreases cands@.len() - i,
    {
        let b = &cands[i];
        let ghost prev = new_decls(s0, vc.take(i as int));
        assert(vc.take(i + 1).drop_last() =~= vc.take(i as int));
        assert(vc.take(i + 1).last() == (b.prefix@, b.uri@));
        if !check_reserved(b.prefix.as_slice()) && !nst.resolves_to(
            b.prefix.as_slice(),
            b.uri.as_slice(),
        ) {
            nst.put(b.prefix.as_slice(), b.uri.as_slice());
            r.push(Binding { prefix: copy_vec(&b.prefix), uri: copy_vec(&b.uri) });
            assert(nst.scope() =~= s0 + prev.push((b.prefix@, b.uri@)));
            assert(view_bindings(r@) =~= prev.push((b.prefix@, b.uri@)));
        }
        i += 1;
    }
    assert(vc.take(i as int) =~= vc);
    r
}

impl Emitter {
    pub closed spec fn cfg(&self) -> EmitterConfig {
        self.config
    }

    pub closed spec fn ns(&self) -> NamespaceStack {
        self.nst
    }

    /// One frame per open element, above the document's frame.
    pub closed spec fn indent_frames(&self) -> Seq<IndentState> {
        self.indent_stack@
    }

    /// The qualified names of the open elements, outermost first.
    pub closed spec fn open_names(&self) -> Seq<Seq<u8>> {
        self.element_names@.map_values(|n: Name| n.qname())
    }

    /// A declaration was written, or markup was, so that none can follow.
    pub closed spec fn started(&self) -> bool {
        self.start_document_emitted
    }

    /// The root element was closed.
    pub closed spec fn finished(&self) -> bool {
        self.document_finished
    }

    /// The number of open elements.
    pub open spec fn depth(&self) -> nat {
        self.open_names().len()
    }

    /// The frame of the innermost open element (or of the document).
    pub open spec fn top(&self) -> IndentState {
        self.indent_frames().last()
    }

    pub closed spec fn wf(&self) -> bool {
        &&& self.nst.wf()
        &&& self.nst.depth() == self.element_names@.len() + 1
        &&& self.indent_stack@.len() == self.element_names@.len() + 1
        &&& self.indent_level == self.element_names@.len()
        &&& !self.start_document_emitted ==> self.element_names@.len() == 0
            && self.indent_stack@ == seq![IndentState::Nothing]
        &&& self.document_finished ==> self.element_names@.len() == 0
            && self.start_document_emitted
    }

    /// The stacks keep step with the open elements: the indentation frames and
    /// the namespace frames each number one more than the open elements.
    pub proof fn lemma_stack_depths(&self)
        requires
            self.wf(),
        ensures
            self.indent_frames().len() == self.depth() + 1,
            self.ns().depth() == self.depth() + 1,
            self.ns().wf(),
    {
    }

    /// The declaration that is written on the way to the first markup.
    pub open spec fn auto_decl(&self) -> Seq<u8> {
        if !self.started() && self.cfg().write_document_declaration {
            default_decl()
        } else {
            Seq::empty()
        }
    }

    /// The indentation frames once that declaration is written.
    pub open spec fn frames_after_auto(&self) -> Seq<IndentState> {
        if !self.started() && self.cfg().write_document_declaration {
            seq![IndentState::Markup]
        } else {
            self.indent_frames()
        }
    }

    /// What a markup event writes before its markup.
    pub open spec fn markup_prefix(&self) -> Seq<u8> {
        self.auto_decl() + markup_gap(self.cfg(), self.frames_after_auto().last(), self.depth())
    }

    /// The frames after a markup event at the current level.
    pub open spec fn frames_after_markup(&self) -> Seq<IndentState> {
        let f = self.frames_after_auto();
        f.update(f.len() - 1, IndentState::Markup)
    }

    /// The namespace declarations an element start tag carries.
    pub open spec fn element_decls(&self, name: Name, attrs: Seq<Attribute>, ns: Namespace) -> Seq<
        (Seq<u8>, Seq<u8>),
    > {
        new_decls(self.ns().scope(), candidates(name, attrs, ns))
    }

    /// Everything a start or empty element event writes, `close` being `>`
    /// or `/>`; the namespace declarations come sorted by prefix, the
    /// attributes by qualified name.
    pub open spec fn start_tag_bytes(
        &self,
        name: Name,
        attrs: Seq<Attribute>,
        ns: Namespace,
        close: Seq<u8>,
    ) -> Seq<u8> {
        self.markup_prefix() + "<".spec_bytes() + name.qname() + decls_bytes(
            sort_by_prefix(self.element_decls(name, attrs, ns)),
        ) + attrs_bytes(sort_by_qname(attrs)) + close
    }

    /// Everything but the indentation frames is as in `o`.
    pub open spec fn same_but_frames(&self, o: &Emitter) -> bool {
        &&& self.cfg() == o.cfg()
        &&& self.ns() == o.ns()
        &&& self.open_names() == o.open_names()
        &&& self.started() == o.started()
        &&& self.finished() == o.finished()
    }

    /// Returns the current state of namespaces.
    pub fn namespace_stack(&self) -> (r: &NamespaceStack)
        ensures
            *r == self.ns(),
    {
        &self.nst
    }

    fn write_newline(&self, target: &mut Vec<u8>, level: usize)
        ensures
            final(target)@ == old(target)@ + newline(self.cfg(), level as nat),
    {
        let ghost t0 = target@;
        append_bytes(target, self.config.line_separator.as_slice());
        let mut i: usize = 0;
        while i < level
            invariant
                i <= level,
                target@ == t0 + self.config.line_separator@ + indents(
                    self.config.indent_string@,
                    i as nat,
                ),
            decreases level - i,
        {
            append_bytes(target, self.config.indent_string.as_slice());
            assert(target@ =~= t0 + self.config.line_separator@ + indents(
                self.config.indent_string@,
                (i + 1) as nat,
            ));
            i += 1;
        }
    }

    fn top_state(&self) -> (r: IndentState)
        requires
            self.wf(),
        ensures
            r == self.top(),
    {
        self.indent_stack[self.indent_stack.len() - 1]
    }

    fn set_top(&mut self, s: IndentState)
        requires
            old(self).wf(),
            old(self).started(),
        ensures
            final(self).wf(),
            final(self).same_but_frames(old(self)),
            final(self).element_names == old(self).element_names,
            final(self).indent_level == old(self).indent_level,
            final(self).indent_frames() == old(self).indent_frames().update(
                old(self).indent_frames().len() - 1,
                s,
            ),
    {
        let n = self.indent_stack.len() - 1;
        self.indent_stack.set(n, s);
    }

    fn before_markup(&self, target: &mut Vec<u8>)
        requires
            self.wf(),
        ensures
            final(target)@ == old(target)@ + markup_gap(self.cfg(), self.top(), self.depth()),
    {
        let top = self.top_state();
        if self.config.perform_indent && top != IndentState::Text && (top == IndentState::Markup
            || self.indent_level > 0) {
            self.write_newline(target, self.indent_level);
        } else {
            assert(target@ =~= old(target)@ + markup_gap(self.cfg(), self.top(), self.depth()));
        }
    }

    fn after_markup(&mut self)
        requires
            old(self).wf(),
            old(self).started(),
        ensures
            final(self).wf(),
            final(self).same_but_frames(old(self)),
            final(self).element_names == old(self).element_names,
            final(self).indent_level == old(self).indent_level,
            final(self).indent_frames() == old(self).indent_frames().update(
                old(self).indent_frames().len() - 1,
                IndentState::Markup,
            ),
    {
        self.set_top(IndentState::Markup);
    }

    fn after_text(&mut self)
        requires
            old(self).wf(),
            old(self).started(),
        ensures
            final(self).wf(),
            final(self).same_but_frames(old(self)),
            final(self).indent_frames() == old(self).indent_frames().update(
                old(self).indent_frames().len() - 1,
                IndentState::Text,
            ),
    {
        self.set_top(IndentState::Text);
    }

    fn before_end_element(&self, target: &mut Vec<u8>)
        requires
            self.wf(),
        ensures
            final(target)@ == old(target)@ + end_gap(self.cfg(), self.top(), self.depth()),
    {
        let top = self.top_state();
        if self.config.perform_indent && top == IndentState::Markup && self.indent_level > 0 {
            self.write_newline(target, self.indent_level - 1);
        } else {
            assert(target@ =~= old(target)@ + end_gap(self.cfg(), self.top(), self.depth()));
        }
    }

    /// Writes the default declaration if none was written yet and the
    /// configuration asks for it; from then on no declaration can follow.
    fn check_document_started(&mut self, target: &mut Vec<u8>)
        requires
            old(self).wf(),
        ensures
            final(self).wf(),
            final(self).started(),
            final(self).cfg() == old(self).cfg(),
            final(self).ns() == old(self).ns(),
            final(self).open_names() == old(self).open_names(),
            final(self).element_names == old(self).element_names,
            final(self).indent_level == old(self).indent_level,
            final(self).finished() == old(self).finished(),
            final(self).indent_frames() == old(self).frames_after_auto(),
            final(target)@ == old(target)@ + old(self).auto_decl(),
    {
        if !self.start_document_emitted {
            if self.config.write_document_declaration {
                write_decl(target, XmlVersion::Version10, "utf-8".as_bytes(), None);
                self.start_document_emitted = true;
                self.set_top(IndentState::Markup);
                assert(self.indent_stack@ =~= seq![IndentState::Markup]);
            } else {
                assert(target@ =~= old(target)@ + old(self).auto_decl());
                self.start_document_emitted = true;
            }
        } else {
            assert(target@ =~= old(target)@ + old(self).auto_decl());
        }
    }
}

/// The bytes of optional string data.
pub open spec fn opt_bytes(data: Option<&str>) -> Option<Seq<u8>> {
    match data {
        Some(d) => Some(d.spec_bytes()),
        None => None,
    }
}

/// The error of a processing instruction, if any: its target must be a
/// name, and its data must hold allowed bytes only and no `?>`.
pub open spec fn pi_error(name: Seq<u8>, data: Option<Seq<u8>>) -> Option<EmitterErrorKind> {
    if !is_ncname(name) {
        Some(EmitterErrorKind::InvalidName)
    } else if data matches Some(d) && (!all_allowed(d) || has_pi_end(d)) {
        Some(EmitterErrorKind::InvalidPayload)
    } else {
        None
    }
}

impl Emitter {
    /// The error of a start or empty element event, if any: none may follow
    /// the root element, names must be valid and attribute values hold
    /// allowed bytes only.
    pub open spec fn element_error(&self, name: Name, attrs: Seq<Attribute>) -> Option<
        EmitterErrorKind,
    > {
        if self.finished() {
            Some(EmitterErrorKind::UnexpectedEvent)
        } else if !name.is_valid() || !attr_names_valid(attrs) {
            Some(EmitterErrorKind::InvalidName)
        } else if !attr_values_allowed(attrs) {
            Some(EmitterErrorKind::InvalidPayload)
        } else {
            None
        }
    }

    /// The error of an end element event with the qualified name `name`, if
    /// any: an element must be open, and a name given must be its name when
    /// names are checked.
    pub open spec fn end_error(&self, name: Option<Seq<u8>>) -> Option<EmitterErrorKind> {
        if self.depth() == 0 {
            Some(EmitterErrorKind::UnexpectedEvent)
        } else if name matches Some(q) && self.cfg().keep_element_names_stack && q
            != self.open_names().last() {
            Some(EmitterErrorKind::EndElementMismatch)
        } else {
            None
        }
    }

    /// The error of a characters event, if any: an element must be open and
    /// the content hold allowed bytes only.
    pub open spec fn text_error(&self, content: Seq<u8>) -> Option<EmitterErrorKind> {
        if self.depth() == 0 {
            Some(EmitterErrorKind::UnexpectedEvent)
        } else if !all_allowed(content) {
            Some(EmitterErrorKind::InvalidPayload)
        } else {
            None
        }
    }

    /// The error of a CDATA event, if any: as for characters, and a section
    /// written as CDATA must not hold `]]>`.
    pub open spec fn cdata_error(&self, content: Seq<u8>) -> Option<EmitterErrorKind> {
        if self.depth() == 0 {
            Some(EmitterErrorKind::UnexpectedEvent)
        } else if !all_allowed(content) || (!self.cfg().cdata_to_characters && has_cdata_end(
            content,
        )) {
            Some(EmitterErrorKind::InvalidPayload)
        } else {
            None
        }
    }

    /// What a CDATA event writes.
    pub open spec fn cdata_bytes(&self, content: Seq<u8>) -> Seq<u8> {
        if self.cfg().cdata_to_characters {
            escape(content, false)
        } else {
            "<![CDATA[".spec_bytes() + content + "]]>".spec_bytes()
        }
    }

    /// The error of a whitespace event, if any.
    pub open spec fn whitespace_error(&self, content: Seq<u8>) -> Option<EmitterErrorKind> {
        if self.depth() == 0 {
            Some(EmitterErrorKind::UnexpectedEvent)
        } else if !all_whitespace(content) {
            Some(EmitterErrorKind::InvalidWhitespaceEvent)
        } else {
            None
        }
    }

    /// The error of a start-document event, if any.
    pub open spec fn start_document_error(&self) -> Option<EmitterErrorKind> {
        if self.started() {
            Some(EmitterErrorKind::DocumentStartAlreadyEmitted)
        } else {
            None
        }
    }

    /// A document starts once: after a start-document event has succeeded,
    /// a second one fails with `DocumentStartAlreadyEmitted`, and then
    /// (by its contract) writes nothing and leaves the emitter as it was.
    pub proof fn lemma_start_document_once(&self, after: &Emitter)
        requires
            self.wf(),
            self.start_document_error() is None,
            after.started(),
        ensures
            after.start_document_error() == Some(EmitterErrorKind::DocumentStartAlreadyEmitted),
    {
    }

    /// An element declares no namespace binding that is already in force:
    /// each declaration in its start tag has an unreserved prefix that does
    /// not resolve to the declared URI in the enclosing scope extended by the
    /// declarations before it.
    pub proof fn lemma_element_decls_needed(
        &self,
        name: Name,
        attrs: Seq<Attribute>,
        ns: Namespace,
    )
        ensures
            forall|i: int|
                0 <= i < self.element_decls(name, attrs, ns).len() ==> {
                    let d = #[trigger] self.element_decls(name, attrs, ns)[i];
                    &&& !is_reserved(d.0)
                    &&& resolve(
                        self.ns().scope() + self.element_decls(name, attrs, ns).take(i),
                        d.0,
                    ) != Some(d.1)
                },
    {
        lemma_no_redundant_declaration(self.ns().scope(), candidates(name, attrs, ns));
    }

    /// Writes the XML declaration. Only one can be written, and none after
    /// any markup.
    pub fn emit_start_document(
        &mut self,
        target: &mut Vec<u8>,
        version: XmlVersion,
        encoding: &str,
        standalone: Option<bool>,
    ) -> (r: EmitterResult<()>)
        requires
            old(self).wf(),
        ensures
            final(self).wf(),
            old(self).start_document_error() matches Some(k) ==> (r matches Err(e) && e.kind == k
                && *final(self) == *old(self) && final(target)@ == old(target)@),
            old(self).start_document_error() is None ==> {
                &&& r is Ok
                &&& final(target)@ == old(target)@ + decl_bytes(
                    version,
                    encoding.spec_bytes(),
                    standalone,
                )
                &&& final(self).started()
                &&& final(self).indent_frames() == seq![IndentState::Markup]
                &&& final(self).cfg() == old(self).cfg()
                &&& final(self).ns() == old(self).ns()
                &&& final(self).open_names() == old(self).open_names()
                &&& !final(self).finished()
            },
    {
        if self.start_document_emitted {
            return Err(
                error(
                    EmitterErrorKind::DocumentStartAlreadyEmitted,
                    "Document start is already emitted",
                ),
            );
        }
        self.start_document_emitted = true;
        self.before_markup(target);
        write_decl(target, version, encoding.as_bytes(), standalone);
        self.after_markup();
        assert(self.indent_stack@ =~= seq![IndentState::Markup]);
        assert(target@ =~= old(target)@ + decl_bytes(version, encoding.spec_bytes(), standalone));
        Ok(())
    }

    /// Writes `<?name data?>`, with the default declaration first when it is
    /// due.
    pub fn emit_processing_instruction(
        &mut self,
        target: &mut Vec<u8>,
        name: &str,
        data: Option<&str>,
    ) -> (r: EmitterResult<()>)
        requires
            old(self).wf(),
        ensures
            final(self).wf(),
            match pi_error(name.spec_bytes(), opt_bytes(data)) {
                Some(k) => r matches Err(e) && e.kind == k && *final(self) == *old(self)
                    && final(target)@ == old(target)@,
                None => {
                    &&& r is Ok
                    &&& final(target)@ == old(target)@ + old(self).markup_prefix() + pi_bytes(
                        name.spec_bytes(),
                        opt_bytes(data),
                    )
                    &&& final(self).indent_frames() == old(self).frames_after_markup()
                    &&& final(self).started()
                    &&& final(self).cfg() == old(self).cfg()
                    &&& final(self).ns() == old(self).ns()
                    &&& final(self).open_names() == old(self).open_names()
                    &&& final(self).finished() == old(self).finished()
                },
            },
    {
        let nb = name.as_bytes();
        if !check_ncname(nb) {
            return Err(error(EmitterErrorKind::InvalidName, "Invalid processing instruction target"));
        }
        let db: Option<&[u8]> = match data {
            Some(d) => Some(d.as_bytes()),
            None => None,
        };
        match db {
            Some(d) => {
                if !check_allowed(d) || find_pi_end(d) {
                    return Err(
                        error(EmitterErrorKind::InvalidPayload, "Invalid processing instruction data"),
                    );
                }
            },
            None => {},
        }
        self.check_document_started(target);
        self.before_markup(target);
        write_pi(target, nb, db);
        self.after_markup();
        assert(target@ =~= old(target)@ + old(self).markup_prefix() + pi_bytes(
            name.spec_bytes(),
            opt_bytes(data),
        ));
        Ok(())
    }

    /// Opens the element's namespace frame, records in it the declarations
    /// the element needs, and writes them sorted by prefix.
    fn emit_namespace_attributes(
        &mut self,
        target: &mut Vec<u8>,
        name: &Name,
        attributes: &[Attribute],
        namespace: &Namespace,
    )
        requires
            old(self).nst.wf(),
        ensures
            final(self).nst.wf(),
            final(self).nst.depth() == old(self).nst.depth() + 1,
            final(self).nst.enclosing() == old(self).nst.scope(),
            final(self).nst.frame_starts() == old(self).nst.frame_starts().push(
                old(self).nst.scope().len() as usize,
            ),
            final(self).nst.scope() == old(self).nst.scope() + old(self).element_decls(
                *name,
                attributes@,
                *namespace,
            ),
            final(self).indent_stack == old(self).indent_stack,
            final(self).element_names == old(self).element_names,
            final(self).indent_level == old(self).indent_level,
            final(self).config == old(self).config,
            final(self).start_document_emitted == old(self).start_document_emitted,
            final(self).document_finished == old(self).document_finished,
            final(target)@ == old(target)@ + decls_bytes(
                sort_by_prefix(old(self).element_decls(*name, attributes@, *namespace)),
            ),
    {
        let cands = collect_candidates(name, attributes, namespace);
        self.nst.push_empty();
        let decls = declare_namespaces(&mut self.nst, cands.as_slice());
        let sorted = sort_bindings(&decls);
        write_decl_attrs(target, sorted.as_slice());
    }

    /// Writes the attributes sorted by qualified name, each value escaped.
    pub fn emit_attributes(&self, target: &mut Vec<u8>, attributes: &[Attribute])
        ensures
            final(target)@ == old(target)@ + attrs_bytes(sort_by_qname(attributes@)),
    {
        write_sorted_attributes(target, attributes);
    }

    /// Writes the start tag up to its closing `>` or `/>`, and opens the
    /// element's namespace frame with its declarations.
    fn emit_start_element_initial(
        &mut self,
        target: &mut Vec<u8>,
        name: &Name,
        attributes: &[Attribute],
        namespace: &Namespace,
    )
        requires
            old(self).wf(),
            !old(self).finished(),
        ensures
            final(self).nst.wf(),
            final(self).nst.depth() == old(self).nst.depth() + 1,
            final(self).nst.enclosing() == old(self).nst.scope(),
            final(self).nst.frame_starts() == old(self).nst.frame_starts().push(
                old(self).nst.scope().len() as usize,
            ),
            final(self).nst.scope() == old(self).nst.scope() + old(self).element_decls(
                *name,
                attributes@,
                *namespace,
            ),
            final(self).indent_stack@ == old(self).frames_after_markup(),
            final(self).element_names == old(self).element_names,
            final(self).indent_level == old(self).indent_level,
            final(self).config == old(self).config,
            final(self).start_document_emitted,
            !final(self).document_finished,
            final(target)@ == old(target)@ + old(self).start_tag_bytes(
                *name,
                attributes@,
                *namespace,
                Seq::empty(),
            ),
    {
        self.check_document_started(target);
        self.before_markup(target);
        let ghost t1 = target@;
        assert(t1 == old(target)@ + old(self).markup_prefix());
        self.after_markup();
        append_bytes(target, "<".as_bytes());
        name.write_qname(target);
        let ghost t2 = target@;
        assert(t2 == t1 + "<".spec_bytes() + name.qname());
        self.emit_namespace_attributes(target, name, attributes, namespace);
        let ghost t3 = target@;
        assert(t3 == t2 + decls_bytes(
            sort_by_prefix(old(self).element_decls(*name, attributes@, *namespace)),
        ));
        self.emit_attributes(target, attributes);
        assert(target@ =~= old(target)@ + old(self).start_tag_bytes(
            *name,
            attributes@,
            *namespace,
            Seq::empty(),
        ));
    }
}

impl Emitter {
    fn validate_element(&self, name: &Name, attributes: &[Attribute]) -> (r: Option<EmitterErrorKind>)
        ensures
            r == self.element_error(*name, attributes@),
    {
        if self.document_finished {
            Some(EmitterErrorKind::UnexpectedEvent)
        } else if !name.check_valid() || !check_attr_names(attributes) {
            Some(EmitterErrorKind::InvalidName)
        } else if !check_attr_values(attributes) {
            Some(EmitterErrorKind::InvalidPayload)
        } else {
            None
        }
    }

    /// Writes a start tag and opens the element.
    pub fn emit_start_element(
        &mut self,
        target: &mut Vec<u8>,
        name: &Name,
        attributes: &[Attribute],
        namespace: &Namespace,
    ) -> (r: EmitterResult<()>)
        requires
            old(self).wf(),
        ensures
            final(self).wf(),
            match old(self).element_error(*name, attributes@) {
                Some(k) => r matches Err(e) && e.kind == k && *final(self) == *old(self)
                    && final(target)@ == old(target)@,
                None => {
                    &&& r is Ok
                    &&& final(target)@ == old(target)@ + old(self).start_tag_bytes(
                        *name,
                        attributes@,
                        *namespace,
                        ">".spec_bytes(),
                    )
                    &&& final(self).indent_frames() == old(self).frames_after_markup().push(
                        IndentState::Nothing,
                    )
                    &&& final(self).open_names() == old(self).open_names().push(name.qname())
                    &&& final(self).ns().scope() == old(self).ns().scope() + old(
                        self,
                    ).element_decls(*name, attributes@, *namespace)
                    &&& final(self).ns().enclosing() == old(self).ns().scope()
                    &&& final(self).started()
                    &&& !final(self).finished()
                    &&& final(self).cfg() == old(self).cfg()
                },
            },
    {
        match self.validate_element(name, attributes) {
            Some(k) => {
                return Err(error(k, "Invalid start element"));
            },
            None => {},
        }
        self.emit_start_element_initial(target, name, attributes, namespace);
        append_bytes(target, ">".as_bytes());
        self.indent_stack.push(IndentState::Nothing);
        let ghost names = self.element_names@;
        self.element_names.push(name.clone_name());
        self.indent_level = self.element_names.len();
        assert(self.open_names() =~= old(self).open_names().push(name.qname())) by {
            assert(self.element_names@ == names.push(self.element_names@.last()));
        }
        assert(target@ =~= old(target)@ + old(self).start_tag_bytes(
            *name,
            attributes@,
            *namespace,
            ">".spec_bytes(),
        ));
        Ok(())
    }

    /// Writes an element with no content, `<name .../>`.
    pub fn emit_empty_element(
        &mut self,
        target: &mut Vec<u8>,
        name: &Name,
        attributes: &[Attribute],
        namespace: &Namespace,
    ) -> (r: EmitterResult<()>)
        requires
            old(self).wf(),
        ensures
            final(self).wf(),
            match old(self).element_error(*name, attributes@) {
                Some(k) => r matches Err(e) && e.kind == k && *final(self) == *old(self)
                    && final(target)@ == old(target)@,
                None => {
                    &&& r is Ok
                    &&& final(target)@ == old(target)@ + old(self).start_tag_bytes(
                        *name,
                        attributes@,
                        *namespace,
                        "/>".spec_bytes(),
                    )
                    &&& final(self).indent_frames() == old(self).frames_after_markup()
                    &&& final(self).open_names() == old(self).open_names()
                    &&& final(self).ns().scope() == old(self).ns().scope()
                    &&& final(self).ns().frame_starts() == old(self).ns().frame_starts()
                    &&& final(self).started()
                    &&& !final(self).finished()
                    &&& final(self).cfg() == old(self).cfg()
                },
            },
    {
        match self.validate_element(name, attributes) {
            Some(k) => {
                return Err(error(k, "Invalid empty element"));
            },
            None => {},
        }
        self.emit_start_element_initial(target, name, attributes, namespace);
        append_bytes(target, "/>".as_bytes());
        self.nst.pop();
        assert(target@ =~= old(target)@ + old(self).start_tag_bytes(
            *name,
            attributes@,
            *namespace,
            "/>".spec_bytes(),
        ));
        Ok(())
    }

    fn after_end_element(&mut self)
        requires
            old(self).wf(),
            old(self).depth() > 0,
        ensures
            final(self).wf(),
            final(self).open_names() == old(self).open_names().drop_last(),
            final(self).indent_frames() == old(self).indent_frames().drop_last().update(
                old(self).depth() - 1,
                IndentState::Markup,
            ),
            final(self).ns().scope() == old(self).ns().enclosing(),
            final(self).ns().depth() == old(self).ns().depth() - 1,
            final(self).finished() == (old(self).depth() == 1),
            final(self).started(),
            final(self).cfg() == old(self).cfg(),
    {
        self.indent_stack.pop();
        self.element_names.pop();
        self.nst.pop();
        self.indent_level = self.element_names.len();
        assert(self.open_names() =~= old(self).open_names().drop_last());
        self.set_top(IndentState::Markup);
        if self.element_names.len() == 0 {
            self.document_finished = true;
        }
    }

    /// Writes the end tag of the innermost open element and closes it. A
    /// name given is checked against it when names are checked, and is the
    /// name written.
    pub fn emit_end_element(&mut self, target: &mut Vec<u8>, name: Option<&Name>) -> (r:
        EmitterResult<()>)
        requires
            old(self).wf(),
        ensures
            final(self).wf(),
            match old(self).end_error(
                match name {
                    Some(n) => Some(n.qname()),
                    None => None,
                },
            ) {
                Some(k) => r matches Err(e) && e.kind == k && *final(self) == *old(self)
                    && final(target)@ == old(target)@,
                None => {
                    &&& r is Ok
                    &&& final(target)@ == old(target)@ + end_gap(
                        old(self).cfg(),
                        old(self).top(),
                        old(self).depth(),
                    ) + "</".spec_bytes() + match name {
                        Some(n) => n.qname(),
                        None => old(self).open_names().last(),
                    } + ">".spec_bytes()
                    &&& final(self).open_names() == old(self).open_names().drop_last()
                    &&& final(self).indent_frames() == old(self).indent_frames().drop_last().update(
                        old(self).depth() - 1,
                        IndentState::Markup,
                    )
                    &&& final(self).ns().scope() == old(self).ns().enclosing()
                    &&& final(self).finished() == (old(self).depth() == 1)
                    &&& final(self).started() == old(self).started()
                    &&& final(self).cfg() == old(self).cfg()
                },
            },
    {
        let n = self.element_names.len();
        if n == 0 {
            return Err(error(EmitterErrorKind::UnexpectedEvent, "No element is open"));
        }
        match name {
            Some(given) => {
                if self.config.keep_element_names_stack && !given.same_qname(
                    &self.element_names[n - 1],
                ) {
                    return Err(
                        error(EmitterErrorKind::EndElementMismatch, "End element name mismatch"),
                    );
                }
            },
            None => {},
        }
        self.before_end_element(target);
        append_bytes(target, "</".as_bytes());
        match name {
            Some(given) => given.write_qname(target),
            None => self.element_names[n - 1].write_qname(target),
        }
        append_bytes(target, ">".as_bytes());
        assert(target@ =~= old(target)@ + end_gap(old(self).cfg(), old(self).top(), old(self).depth())
            + "</".spec_bytes() + match name {
            Some(g) => g.qname(),
            None => old(self).open_names().last(),
        } + ">".spec_bytes());
        self.after_end_element();
        Ok(())
    }

    /// Writes character data, escaped.
    pub fn emit_characters(&mut self, target: &mut Vec<u8>, content: &str) -> (r: EmitterResult<
        (),
    >)
        requires
            old(self).wf(),
        ensures
            final(self).wf(),
            match old(self).text_error(content.spec_bytes()) {
                Some(k) => r matches Err(e) && e.kind == k && *final(self) == *old(self)
                    && final(target)@ == old(target)@,
                None => {
                    &&& r is Ok
                    &&& final(target)@ == old(target)@ + escape(content.spec_bytes(), false)
                    &&& final(self).indent_frames() == old(self).indent_frames().update(
                        old(self).depth() as int,
                        IndentState::Text,
                    )
                    &&& final(self).same_but_frames(old(self))
                },
            },
    {
        if self.element_names.len() == 0 {
            return Err(error(EmitterErrorKind::UnexpectedEvent, "Characters outside an element"));
        }
        let c = content.as_bytes();
        if !check_allowed(c) {
            return Err(error(EmitterErrorKind::InvalidPayload, "Disallowed character in content"));
        }
        write_escaped(target, c, false);
        self.after_text();
        Ok(())
    }

    /// Writes a CDATA section, or escaped character data when the
    /// configuration turns CDATA into characters.
    pub fn emit_cdata(&mut self, target: &mut Vec<u8>, content: &str) -> (r: EmitterResult<()>)
        requires
            old(self).wf(),
        ensures
            final(self).wf(),
            match old(self).cdata_error(content.spec_bytes()) {
                Some(k) => r matches Err(e) && e.kind == k && *final(self) == *old(self)
                    && final(target)@ == old(target)@,
                None => {
                    &&& r is Ok
                    &&& final(target)@ == old(target)@ + old(self).cdata_bytes(content.spec_bytes())
                    &&& final(self).indent_frames() == old(self).indent_frames().update(
                        old(self).depth() as int,
                        IndentState::Text,
                    )
                    &&& final(self).same_but_frames(old(self))
                },
            },
    {
        if self.element_names.len() == 0 {
            return Err(error(EmitterErrorKind::UnexpectedEvent, "CDATA outside an element"));
        }
        let c = content.as_bytes();
        if !check_allowed(c) || (!self.config.cdata_to_characters && find_cdata_end(c)) {
            return Err(error(EmitterErrorKind::InvalidPayload, "Invalid CDATA content"));
        }
        if self.config.cdata_to_characters {
            write_escaped(target, c, false);
        } else {
            append_bytes(target, "<![CDATA[".as_bytes());
            append_bytes(target, c);
            append_bytes(target, "]]>".as_bytes());
            assert(target@ =~= old(target)@ + old(self).cdata_bytes(content.spec_bytes()));
        }
        self.after_text();
        Ok(())
    }

    /// Writes whitespace as it is.
    pub fn emit_whitespace(&mut self, target: &mut Vec<u8>, content: &str) -> (r: EmitterResult<
        (),
    >)
        requires
            old(self).wf(),
        ensures
            final(self).wf(),
            match old(self).whitespace_error(content.spec_bytes()) {
                Some(k) => r matches Err(e) && e.kind == k && *final(self) == *old(self)
                    && final(target)@ == old(target)@,
                None => {
                    &&& r is Ok
                    &&& final(target)@ == old(target)@ + content.spec_bytes()
                    &&& final(self).indent_frames() == if content.spec_bytes().len() > 0 {
                        old(self).indent_frames().update(
                            old(self).depth() as int,
                            IndentState::Text,
                        )
                    } else {
                        old(self).indent_frames()
                    }
                    &&& final(self).same_but_frames(old(self))
                },
            },
    {
        if self.element_names.len() == 0 {
            return Err(error(EmitterErrorKind::UnexpectedEvent, "Whitespace outside an element"));
        }
        let c = content.as_bytes();
        if !check_whitespace(c) {
            return Err(
                error(EmitterErrorKind::InvalidWhitespaceEvent, "Non-whitespace in whitespace event"),
            );
        }
        append_bytes(target, c);
        if c.len() > 0 {
            self.after_text();
        }
        Ok(())
    }
}

} // verus!
