use vstd::prelude::*;
use vstd::string::StringSliceAdditionalSpecFns;
use crate::name::{append_bytes, bytes_eq, bytes_of, copy_vec};

verus! {

/// One prefix bound to one URI; the empty prefix is the default namespace.
pub struct Binding {
    pub prefix: Vec<u8>,
    pub uri: Vec<u8>,
}

/// The bindings as (prefix, URI) pairs of bytes.
pub open spec fn view_bindings(b: Seq<Binding>) -> Seq<(Seq<u8>, Seq<u8>)> {
    b.map_values(|x: Binding| (x.prefix@, x.uri@))
}

pub open spec fn xml_prefix() -> Seq<u8> {
    "xml".spec_bytes()
}

pub open spec fn xmlns_prefix() -> Seq<u8> {
    "xmlns".spec_bytes()
}

pub open spec fn xml_uri() -> Seq<u8> {
    "http://www.w3.org/XML/1998/namespace".spec_bytes()
}

pub open spec fn xmlns_uri() -> Seq<u8> {
    "http://www.w3.org/2000/xmlns/".spec_bytes()
}

/// `xml` and `xmlns` are bound once and for all and never declared.
pub open spec fn is_reserved(p: Seq<u8>) -> bool {
    p == xml_prefix() || p == xmlns_prefix()
}

/// The URI of the last binding of `p` in `scope`.
pub open spec fn lookup(scope: Seq<(Seq<u8>, Seq<u8>)>, p: Seq<u8>) -> Option<Seq<u8>>
    decreases scope.len(),
{
    if scope.len() == 0 {
        None
    } else if scope.last().0 == p {
        Some(scope.last().1)
    } else {
        lookup(scope.drop_last(), p)
    }
}

/// What `p` stands for in `scope`: the fixed URI of a reserved prefix, else
/// the innermost binding.
pub open spec fn resolve(scope: Seq<(Seq<u8>, Seq<u8>)>, p: Seq<u8>) -> Option<Seq<u8>> {
    if p == xml_prefix() {
        Some(xml_uri())
    } else if p == xmlns_prefix() {
        Some(xmlns_uri())
    } else {
        lookup(scope, p)
    }
}

/// The declarations that an element needs for the bindings `cands`, taken in
/// order: a binding is declared unless its prefix is reserved or already
/// resolves to its URI, counting the declarations made before it.
pub open spec fn new_decls(scope: Seq<(Seq<u8>, Seq<u8>)>, cands: Seq<(Seq<u8>, Seq<u8>)>) -> Seq<
    (Seq<u8>, Seq<u8>),
>
    decreases cands.len(),
{
    if cands.len() == 0 {
        Seq::empty()
    } else {
        let prev = new_decls(scope, cands.drop_last());
        let c = cands.last();
        if is_reserved(c.0) || resolve(scope + prev, c.0) == Some(c.1) {
            prev
        } else {
            prev.push(c)
        }
    }
}

/// No declaration is made for a binding already in force: every declared
/// prefix is unreserved and, where it is declared, did not yet resolve to the
/// declared URI.
pub proof fn lemma_no_redundant_declaration(
    scope: Seq<(Seq<u8>, Seq<u8>)>,
    cands: Seq<(Seq<u8>, Seq<u8>)>,
)
    ensures
        forall|i: int|
            0 <= i < new_decls(scope, cands).len() ==> {
                let d = #[trigger] new_decls(scope, cands)[i];
                &&& !is_reserved(d.0)
                &&& resolve(scope + new_decls(scope, cands).take(i), d.0) != Some(d.1)
            },
    decreases cands.len(),
{
    if cands.len() > 0 {
        let prev = new_decls(scope, cands.drop_last());
        lemma_no_redundant_declaration(scope, cands.drop_last());
        let d = new_decls(scope, cands);
        assert forall|i: int| 0 <= i < d.len() implies {
            let x = #[trigger] d[i];
            &&& !is_reserved(x.0)
            &&& resolve(scope + d.take(i), x.0) != Some(x.1)
        } by {
            if i < prev.len() {
                assert(d[i] == prev[i]);
                assert(d.take(i) =~= prev.take(i));
            } else {
                assert(d.take(i) =~= prev);
            }
        }
    }
}

proof fn lemma_lookup_skip(a: Seq<(Seq<u8>, Seq<u8>)>, b: Seq<(Seq<u8>, Seq<u8>)>, p: Seq<u8>)
    requires
        forall|i: int| 0 <= i < b.len() ==> (#[trigger] b[i]).0 != p,
    ensures
        lookup(a + b, p) == lookup(a, p),
    decreases b.len(),
{
    if b.len() > 0 {
        assert((a + b).drop_last() =~= a + b.drop_last());
        assert((a + b).last() == b.last());
        lemma_lookup_skip(a, b.drop_last(), p);
    } else {
        assert(a + b =~= a);
    }
}

/// A prefix already bound to a URI in the enclosing scope is not declared
/// again when every binding the element refers to for that prefix has that
/// same URI.
pub proof fn lemma_bound_prefix_not_declared(
    scope: Seq<(Seq<u8>, Seq<u8>)>,
    cands: Seq<(Seq<u8>, Seq<u8>)>,
    p: Seq<u8>,
    u: Seq<u8>,
)
    requires
        resolve(scope, p) == Some(u),
        forall|i: int| 0 <= i < cands.len() && (#[trigger] cands[i]).0 == p ==> cands[i].1 == u,
    ensures
        forall|i: int|
            0 <= i < new_decls(scope, cands).len() ==> (#[trigger] new_decls(scope, cands)[i]).0
                != p,
    decreases cands.len(),
{
    if cands.len() > 0 {
        let prev = new_decls(scope, cands.drop_last());
        assert forall|i: int|
            0 <= i < cands.drop_last().len() && (#[trigger] cands.drop_last()[i]).0 == p implies cands.drop_last()[i].1
            == u by {
            assert(cands.drop_last()[i] == cands[i]);
        }
        lemma_bound_prefix_not_declared(scope, cands.drop_last(), p, u);
        let c = cands.last();
        if c.0 == p {
            assert(cands[cands.len() - 1] == c);
            if !is_reserved(p) {
                lemma_lookup_skip(scope, prev, p);
            }
            assert(resolve(scope + prev, c.0) == Some(c.1));
        }
    }
}

/// A namespace mapping handed to an element: bindings in order, a later
/// binding of the same prefix replacing an earlier one.
pub struct Namespace {
    pub bindings: Vec<Binding>,
}

impl Namespace {
    pub open spec fn view_seq(&self) -> Seq<(Seq<u8>, Seq<u8>)> {
        view_bindings(self.bindings@)
    }

    pub fn empty() -> (r: Namespace)
        ensures
            r.view_seq() == Seq::<(Seq<u8>, Seq<u8>)>::empty(),
    {
        let r = Namespace { bindings: Vec::new() };
        assert(r.view_seq() =~= Seq::<(Seq<u8>, Seq<u8>)>::empty());
        r
    }

    pub fn put(&mut self, prefix: &str, uri: &str)
        ensures
            final(self).view_seq() == old(self).view_seq().push(
                (prefix.spec_bytes(), uri.spec_bytes()),
            ),
    {
        self.bindings.push(Binding { prefix: bytes_of(prefix), uri: bytes_of(uri) });
        assert(self.view_seq() =~= old(self).view_seq().push(
            (prefix.spec_bytes(), uri.spec_bytes()),
        ));
    }
}

/// The bindings in force, frame by frame: each open element has a frame,
/// below them the root frame. The bindings are kept in one sequence, and each
/// frame is the part of it from its start index to the next frame's.
pub struct NamespaceStack {
    bindings: Vec<Binding>,
    frame_starts: Vec<usize>,
}

impl NamespaceStack {
    /// All bindings, outermost first.
    pub closed spec fn scope(&self) -> Seq<(Seq<u8>, Seq<u8>)> {
        view_bindings(self.bindings@)
    }

    /// Where each frame starts in `scope()`.
    pub closed spec fn frame_starts(&self) -> Seq<usize> {
        self.frame_starts@
    }

    /// The number of frames.
    pub closed spec fn depth(&self) -> nat {
        self.frame_starts@.len()
    }

    /// The bindings of the frames below the top one.
    pub closed spec fn enclosing(&self) -> Seq<(Seq<u8>, Seq<u8>)> {
        self.scope().take(self.frame_starts@.last() as int)
    }

    pub closed spec fn wf(&self) -> bool {
        &&& self.frame_starts@.len() >= 1
        &&& self.frame_starts@[0] == 0
        &&& forall|i: int, j: int|
            #![trigger self.frame_starts@[i], self.frame_starts@[j]]
            0 <= i <= j < self.frame_starts@.len() ==> self.frame_starts@[i]
                <= self.frame_starts@[j]
        &&& forall|i: int|
            0 <= i < self.frame_starts@.len() ==> #[trigger] self.frame_starts@[i]
                <= self.bindings@.len()
    }

    /// The top frame's bindings.
    pub open spec fn top(&self) -> Seq<(Seq<u8>, Seq<u8>)> {
        self.scope().skip(self.enclosing().len() as int)
    }

    pub proof fn lemma_wf(&self)
        requires
            self.wf(),
        ensures
            self.depth() >= 1,
            self.enclosing().len() <= self.scope().len(),
            self.enclosing() + self.top() == self.scope(),
    {
        let n = self.frame_starts@.len() - 1;
        assert(self.frame_starts@[n] <= self.bindings@.len());
        assert(self.enclosing() + self.top() =~= self.scope());
    }

    /// A stack holding only the root frame, with no bindings.
    pub fn empty() -> (r: NamespaceStack)
        ensures
            r.wf(),
            r.depth() == 1,
            r.scope() == Seq::<(Seq<u8>, Seq<u8>)>::empty(),
    {
        let r = NamespaceStack { bindings: Vec::new(), frame_starts: vec![0] };
        assert(r.scope() =~= Seq::<(Seq<u8>, Seq<u8>)>::empty());
        r
    }

    /// Opens a frame with no bindings.
    pub fn push_empty(&mut self)
        requires
            old(self).wf(),
        ensures
            final(self).wf(),
            final(self).depth() == old(self).depth() + 1,
            final(self).scope() == old(self).scope(),
            final(self).enclosing() == old(self).scope(),
            final(self).frame_starts() == old(self).frame_starts().push(
                old(self).scope().len() as usize,
            ),
    {
        let n = self.bindings.len();
        self.frame_starts.push(n);
        assert(self.scope().take(n as int) =~= self.scope());
    }

    /// Closes the top frame and drops its bindings.
    pub fn pop(&mut self)
        requires
            old(self).wf(),
            old(self).depth() >= 2,
        ensures
            final(self).wf(),
            final(self).depth() == old(self).depth() - 1,
            final(self).scope() == old(self).enclosing(),
            final(self).frame_starts() == old(self).frame_starts().drop_last(),
    {
        let start = self.frame_starts[self.frame_starts.len() - 1];
        self.frame_starts.pop();
        self.bindings.truncate(start);
        assert(self.scope() =~= old(self).enclosing());
        assert forall|j: int|
            0 <= j < self.frame_starts@.len() implies #[trigger] self.frame_starts@[j]
            <= self.bindings@.len() by {
            assert(old(self).frame_starts@[j] <= old(self).frame_starts@[
                old(self).frame_starts@.len() - 1]);
        }
    }

    /// Binds `prefix` to `uri` in the top frame; a reserved prefix keeps its
    /// fixed URI and nothing is recorded.
    pub fn put(&mut self, prefix: &[u8], uri: &[u8])
        requires
            old(self).wf(),
        ensures
            final(self).wf(),
            final(self).depth() == old(self).depth(),
            final(self).enclosing() == old(self).enclosing(),
            final(self).frame_starts() == old(self).frame_starts(),
            final(self).scope() == if is_reserved(prefix@) {
                old(self).scope()
            } else {
                old(self).scope().push((prefix@, uri@))
            },
    {
        if check_reserved(prefix) {
            return ;
        }
        let mut p: Vec<u8> = Vec::new();
        append_bytes(&mut p, prefix);
        let mut u: Vec<u8> = Vec::new();
        append_bytes(&mut u, uri);
        assert(p@ =~= prefix@ && u@ =~= uri@);
        self.bindings.push(Binding { prefix: p, uri: u });
        assert(self.scope() =~= old(self).scope().push((prefix@, uri@)));
        let ghost k = old(self).frame_starts@.last() as int;
        assert(k <= old(self).bindings@.len());
        assert(self.enclosing() =~= old(self).enclosing());
    }

    /// Whether `prefix` resolves to `uri`.
    pub fn resolves_to(&self, prefix: &[u8], uri: &[u8]) -> (r: bool)
        ensures
            r == (resolve(self.scope(), prefix@) == Some(uri@)),
    {
        if bytes_eq(prefix, "xml".as_bytes()) {
            assert(prefix@ == xml_prefix());
            assert(resolve(self.scope(), prefix@) == Some(xml_uri()));
            return bytes_eq(uri, "http://www.w3.org/XML/1998/namespace".as_bytes());
        }
        if bytes_eq(prefix, "xmlns".as_bytes()) {
            return bytes_eq(uri, "http://www.w3.org/2000/xmlns/".as_bytes());
        }
        let mut i: usize = self.bindings.len();
        assert(self.scope().take(i as int) =~= self.scope());
        while i > 0
            invariant
                i <= self.bindings@.len(),
                !is_reserved(prefix@),
                lookup(self.scope(), prefix@) == lookup(self.scope().take(i as int), prefix@),
            decreases i,
        {
            assert(i <= self.scope().len());
            let b = &self.bindings[i - 1];
            let ghost t = self.scope().take(i as int);
            assert(t.drop_last() =~= self.scope().take(i - 1));
            assert(t.last() == (b.prefix@, b.uri@));
            if bytes_eq(b.prefix.as_slice(), prefix) {
                assert(lookup(t, prefix@) == Some(b.uri@));
                assert(!is_reserved(prefix@));
                assert(resolve(self.scope(), prefix@) == Some(b.uri@));
                return bytes_eq(b.uri.as_slice(), uri);
            }
            i -= 1;
        }
        assert(self.scope().take(0) =~= Seq::<(Seq<u8>, Seq<u8>)>::empty());
        assert(lookup(self.scope(), prefix@) is None);
        false
    }

    /// The bindings of the top frame.
    pub fn declarations_of_top(&self) -> (r: Vec<Binding>)
        requires
            self.wf(),
        ensures
            view_bindings(r@) == self.top(),
    {
        proof {
            self.lemma_wf();
        }
        let start = self.frame_starts[self.frame_starts.len() - 1];
        let mut r: Vec<Binding> = Vec::new();
        let mut i: usize = start;
        while i < self.bindings.len()
            invariant
                start <= i <= self.bindings@.len(),
                start == self.enclosing().len(),
                view_bindings(r@) == self.scope().subrange(start as int, i as int),
            decreases self.bindings@.len() - i,
        {
            let b = &self.bindings[i];
            let ghost old_r = r@;
            r.push(Binding { prefix: copy_vec(&b.prefix), uri: copy_vec(&b.uri) });
            assert(r@ == old_r.push(r@.last()));
            assert(view_bindings(r@) =~= view_bindings(old_r).push(self.scope()[i as int]));
            assert(view_bindings(r@) =~= self.scope().subrange(start as int, i + 1));
            i += 1;
        }
        assert(self.scope().subrange(start as int, i as int) =~= self.top());
        r
    }
}

/// Whether `p` is `xml` or `xmlns`.
pub fn check_reserved(p: &[u8]) -> (r: bool)
    ensures
        r == is_reserved(p@),
{
    bytes_eq(p, "xml".as_bytes()) || bytes_eq(p, "xmlns".as_bytes())
}

/// Byte-wise lexicographic order, a proper prefix first.
pub open spec fn bytes_lt(a: Seq<u8>, b: Seq<u8>) -> bool
    decreases a.len(),
{
    if b.len() == 0 {
        false
    } else if a.len() == 0 {
        true
    } else if a[0] != b[0] {
        a[0] < b[0]
    } else {
        bytes_lt(a.drop_first(), b.drop_first())
    }
}

pub fn bytes_less(a: &[u8], b: &[u8]) -> (r: bool)
    ensures
        r == bytes_lt(a@, b@),
{
    let mut i: usize = 0;
    assert(a@.skip(0) =~= a@ && b@.skip(0) =~= b@);
    while i < a.len() && i < b.len()
        invariant
            i <= a@.len(),
            i <= b@.len(),
            bytes_lt(a@, b@) == bytes_lt(a@.skip(i as int), b@.skip(i as int)),
        decreases a@.len() - i,
    {
        if a[i] != b[i] {
            return a[i] < b[i];
        }
        assert(a@.skip(i as int).drop_first() =~= a@.skip(i + 1));
        assert(b@.skip(i as int).drop_first() =~= b@.skip(i + 1));
        i += 1;
    }
    i < b.len()
}

/// `x` put into `s` before the first binding whose prefix comes after its
/// own.
pub open spec fn insert_by_prefix(s: Seq<(Seq<u8>, Seq<u8>)>, x: (Seq<u8>, Seq<u8>)) -> Seq<
    (Seq<u8>, Seq<u8>),
>
    decreases s.len(),
{
    if s.len() == 0 {
        seq![x]
    } else if bytes_lt(x.0, s[0].0) {
        seq![x] + s
    } else {
        seq![s[0]] + insert_by_prefix(s.drop_first(), x)
    }
}

/// The bindings sorted by prefix, the empty prefix first; bindings with
/// equal prefixes keep their order.
pub open spec fn sort_by_prefix(s: Seq<(Seq<u8>, Seq<u8>)>) -> Seq<(Seq<u8>, Seq<u8>)>
    decreases s.len(),
{
    if s.len() == 0 {
        Seq::empty()
    } else {
        insert_by_prefix(sort_by_prefix(s.drop_last()), s.last())
    }
}

proof fn lemma_insert_at(s: Seq<(Seq<u8>, Seq<u8>)>, x: (Seq<u8>, Seq<u8>), j: int)
    requires
        0 <= j <= s.len(),
        forall|k: int| 0 <= k < j ==> !bytes_lt(x.0, #[trigger] s[k].0),
        j == s.len() || bytes_lt(x.0, s[j].0),
    ensures
        insert_by_prefix(s, x) == s.insert(j, x),
    decreases s.len(),
{
    if j == 0 {
        if s.len() == 0 {
            assert(s.insert(0, x) =~= seq![x]);
        } else {
            assert(s.insert(0, x) =~= seq![x] + s);
        }
    } else {
        let t = s.drop_first();
        assert forall|k: int| 0 <= k < j - 1 implies !bytes_lt(x.0, #[trigger] t[k].0) by {
            assert(t[k] == s[k + 1]);
        }
        assert(!bytes_lt(x.0, s[0].0));
        lemma_insert_at(t, x, j - 1);
        assert(s.insert(j, x) =~= seq![s[0]] + t.insert(j - 1, x));
    }
}

/// The bindings sorted by prefix.
pub fn sort_bindings(v: &Vec<Binding>) -> (r: Vec<Binding>)
    ensures
        view_bindings(r@) == sort_by_prefix(view_bindings(v@)),
{
    let ghost vv = view_bindings(v@);
    let mut r: Vec<Binding> = Vec::new();
    let mut i: usize = 0;
    assert(vv.take(0) =~= Seq::<(Seq<u8>, Seq<u8>)>::empty());
    assert(view_bindings(r@) =~= Seq::<(Seq<u8>, Seq<u8>)>::empty());
    while i < v.len()
        invariant
            i <= v@.len(),
            vv == view_bindings(v@),
            view_bindings(r@) == sort_by_prefix(vv.take(i as int)),
        decreases v@.len() - i,
    {
        let b = &v[i];
        let ghost rv = view_bindings(r@);
        let ghost x = (b.prefix@, b.uri@);
        let mut j: usize = 0;
        while j < r.len() && !bytes_less(b.prefix.as_slice(), r[j].prefix.as_slice())
            invariant
                j <= r@.len(),
                rv == view_bindings(r@),
                x == (b.prefix@, b.uri@),
                forall|k: int| 0 <= k < j ==> !bytes_lt(x.0, #[trigger] rv[k].0),
            decreases r@.len() - j,
        {
            j += 1;
        }
        proof {
            lemma_insert_at(rv, x, j as int);
        }
        let ghost old_r = r@;
        r.insert(j, Binding { prefix: copy_vec(&b.prefix), uri: copy_vec(&b.uri) });
        assert(view_bindings(r@) =~= rv.insert(j as int, x)) by {
            assert(r@ =~= old_r.insert(j as int, r@[j as int]));
        }
        assert(vv.take(i + 1).drop_last() =~= vv.take(i as int));
        assert(vv.take(i + 1).last() == x);
        i += 1;
    }
    assert(vv.take(i as int) =~= vv);
    r
}

} // verus!
