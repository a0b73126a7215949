use vstd::prelude::*;
use vstd::string::StringSliceAdditionalSpecFns;
use crate::config::XmlVersion;
use crate::escape::{escape, write_escaped};
use crate::name::{append_bytes, Attribute, Name};
use crate::namespace::{bytes_less, bytes_lt, view_bindings, Binding, Namespace};

verus! {

/// A byte that XML allows in content: not one of the low control bytes other
/// than tab, line feed and carriage return.
pub open spec fn is_allowed_byte(b: u8) -> bool {
    b >= 32 || b == 9 || b == 10 || b == 13
}

pub open spec fn all_allowed(s: Seq<u8>) -> bool {
    forall|i: int| 0 <= i < s.len() ==> is_allowed_byte(#[trigger] s[i])
}

/// Space, tab, line feed or carriage return.
pub open spec fn is_whitespace_byte(b: u8) -> bool {
    b == 32 || b == 9 || b == 10 || b == 13
}

pub open spec fn all_whitespace(s: Seq<u8>) -> bool {
    forall|i: int| 0 <= i < s.len() ==> is_whitespace_byte(#[trigger] s[i])
}

/// `s` holds `?>`, which would end a processing instruction early.
pub open spec fn has_pi_end(s: Seq<u8>) -> bool {
    exists|i: int| 0 <= i && i + 1 < s.len() && #[trigger] s[i] == 63 && s[i + 1] == 62
}

/// `s` holds `]]>`, which would end a CDATA section early.
pub open spec fn has_cdata_end(s: Seq<u8>) -> bool {
    exists|i: int|
        0 <= i && i + 2 < s.len() && #[trigger] s[i] == 93 && s[i + 1] == 93 && s[i + 2] == 62
}

pub fn check_allowed(s: &[u8]) -> (r: bool)
    ensures
        r == all_allowed(s@),
{
    let mut i: usize = 0;
    while i < s.len()
        invariant
            i <= s@.len(),
            forall|j: int| 0 <= j < i ==> is_allowed_byte(#[trigger] s@[j]),
        decreases s@.len() - i,
    {
        let b = s[i];
        if !(b >= 32 || b == 9 || b == 10 || b == 13) {
            return false;
        }
        i += 1;
    }
    true
}

pub fn check_whitespace(s: &[u8]) -> (r: bool)
    ensures
        r == all_whitespace(s@),
{
    let mut i: usize = 0;
    while i < s.len()
        invariant
            i <= s@.len(),
            forall|j: int| 0 <= j < i ==> is_whitespace_byte(#[trigger] s@[j]),
        decreases s@.len() - i,
    {
        let b = s[i];
        if !(b == 32 || b == 9 || b == 10 || b == 13) {
            return false;
        }
        i += 1;
    }
    true
}

pub fn find_pi_end(s: &[u8]) -> (r: bool)
    ensures
        r == has_pi_end(s@),
{
    let mut i: usize = 0;
    while s.len() >= 2 && i < s.len() - 1
        invariant
            i <= s@.len(),
            forall|j: int| 0 <= j < i && j + 1 < s@.len() ==> !(#[trigger] s@[j] == 63 && s@[j + 1] == 62),
        decreases s@.len() - i,
    {
        if s[i] == 63 && s[i + 1] == 62 {
            return true;
        }
        i += 1;
    }
    false
}

pub fn find_cdata_end(s: &[u8]) -> (r: bool)
    ensures
        r == has_cdata_end(s@),
{
    let mut i: usize = 0;
    while s.len() >= 3 && i < s.len() - 2
        invariant
            i <= s@.len(),
            forall|j: int|
                0 <= j < i && j + 2 < s@.len() ==> !(#[trigger] s@[j] == 93 && s@[j + 1] == 93
                    && s@[j + 2] == 62),
        decreases s@.len() - i,
    {
        if s[i] == 93 && s[i + 1] == 93 && s[i + 2] == 62 {
            return true;
        }
        i += 1;
    }
    false
}

pub open spec fn version_bytes(v: XmlVersion) -> Seq<u8> {
    match v {
        XmlVersion::Version10 => "1.0".spec_bytes(),
        XmlVersion::Version11 => "1.1".spec_bytes(),
    }
}

/// `<?xml version="V" encoding="E"?>`, with ` standalone="yes"` or
/// ` standalone="no"` before `?>` when given.
pub open spec fn decl_bytes(v: XmlVersion, encoding: Seq<u8>, standalone: Option<bool>) -> Seq<
    u8,
> {
    "<?xml version=\"".spec_bytes() + version_bytes(v) + "\" encoding=\"".spec_bytes() + encoding
        + "\"".spec_bytes() + match standalone {
        Some(true) => " standalone=\"yes\"".spec_bytes(),
        Some(false) => " standalone=\"no\"".spec_bytes(),
        None => Seq::empty(),
    } + "?>".spec_bytes()
}

/// The declaration written when none was asked for.
pub open spec fn default_decl() -> Seq<u8> {
    decl_bytes(XmlVersion::Version10, "utf-8".spec_bytes(), None)
}

pub fn write_decl(target: &mut Vec<u8>, v: XmlVersion, encoding: &[u8], standalone: Option<bool>)
    ensures
        final(target)@ == old(target)@ + decl_bytes(v, encoding@, standalone),
{
    let ghost start = target@;
    append_bytes(target, "<?xml version=\"".as_bytes());
    match v {
        XmlVersion::Version10 => append_bytes(target, "1.0".as_bytes()),
        XmlVersion::Version11 => append_bytes(target, "1.1".as_bytes()),
    }
    append_bytes(target, "\" encoding=\"".as_bytes());
    append_bytes(target, encoding);
    append_bytes(target, "\"".as_bytes());
    match standalone {
        Some(true) => append_bytes(target, " standalone=\"yes\"".as_bytes()),
        Some(false) => append_bytes(target, " standalone=\"no\"".as_bytes()),
        None => {},
    }
    append_bytes(target, "?>".as_bytes());
    assert(target@ =~= start + decl_bytes(v, encoding@, standalone));
}

/// `<?target data?>`, or `<?target?>` without data.
pub open spec fn pi_bytes(name: Seq<u8>, data: Option<Seq<u8>>) -> Seq<u8> {
    "<?".spec_bytes() + name + match data {
        Some(d) => " ".spec_bytes() + d,
        None => Seq::empty(),
    } + "?>".spec_bytes()
}

pub fn write_pi(target: &mut Vec<u8>, name: &[u8], data: Option<&[u8]>)
    ensures
        final(target)@ == old(target)@ + pi_bytes(
            name@,
            match data {
                Some(d) => Some(d@),
                None => None,
            },
        ),
{
    let ghost start = target@;
    append_bytes(target, "<?".as_bytes());
    append_bytes(target, name);
    match data {
        Some(d) => {
            append_bytes(target, " ".as_bytes());
            append_bytes(target, d);
        },
        None => {},
    }
    append_bytes(target, "?>".as_bytes());
    assert(target@ =~= start + pi_bytes(
        name@,
        match data {
            Some(d) => Some(d@),
            None => None,
        },
    ));
}

/// ` xmlns="URI"` for the default namespace, ` xmlns:p="URI"` otherwise.
pub open spec fn decl_attr_bytes(b: (Seq<u8>, Seq<u8>)) -> Seq<u8> {
    (if b.0.len() == 0 {
        " xmlns=\"".spec_bytes()
    } else {
        " xmlns:".spec_bytes() + b.0 + "=\"".spec_bytes()
    }) + escape(b.1, true) + "\"".spec_bytes()
}

/// The namespace declarations `d`, in order.
pub open spec fn decls_bytes(d: Seq<(Seq<u8>, Seq<u8>)>) -> Seq<u8>
    decreases d.len(),
{
    if d.len() == 0 {
        Seq::empty()
    } else {
        decls_bytes(d.drop_last()) + decl_attr_bytes(d.last())
    }
}

pub fn write_decl_attr(target: &mut Vec<u8>, prefix: &[u8], uri: &[u8])
    ensures
        final(target)@ == old(target)@ + decl_attr_bytes((prefix@, uri@)),
{
    let ghost start = target@;
    if prefix.len() == 0 {
        append_bytes(target, " xmlns=\"".as_bytes());
    } else {
        append_bytes(target, " xmlns:".as_bytes());
        append_bytes(target, prefix);
        append_bytes(target, "=\"".as_bytes());
    }
    write_escaped(target, uri, true);
    append_bytes(target, "\"".as_bytes());
    assert(target@ =~= start + decl_attr_bytes((prefix@, uri@)));
}

/// Appends the namespace declarations `ds`, in order.
pub fn write_decl_attrs(target: &mut Vec<u8>, ds: &[Binding])
    ensures
        final(target)@ == old(target)@ + decls_bytes(view_bindings(ds@)),
{
    let ghost start = target@;
    let ghost vd = view_bindings(ds@);
    let mut i: usize = 0;
    assert(vd.take(0) =~= Seq::<(Seq<u8>, Seq<u8>)>::empty());
    assert(target@ =~= start + decls_bytes(vd.take(0)));
    while i < ds.len()
        invariant
            i <= ds@.len(),
            vd == view_bindings(ds@),
            target@ == start + decls_bytes(vd.take(i as int)),
        decreases ds@.len() - i,
    {
        let b = &ds[i];
        write_decl_attr(target, b.prefix.as_slice(), b.uri.as_slice());
        assert(vd.take(i + 1).drop_last() =~= vd.take(i as int));
        assert(vd.take(i + 1).last() == (b.prefix@, b.uri@));
        assert(target@ =~= start + decls_bytes(vd.take(i + 1)));
        i += 1;
    }
    assert(vd.take(i as int) =~= vd);
}

/// ` name="value"`, the value escaped.
pub open spec fn attr_bytes(a: Attribute) -> Seq<u8> {
    " ".spec_bytes() + a.name.qname() + "=\"".spec_bytes() + escape(a.value@, true)
        + "\"".spec_bytes()
}

/// The attributes, in the order given.
pub open spec fn attrs_bytes(attrs: Seq<Attribute>) -> Seq<u8>
    decreases attrs.len(),
{
    if attrs.len() == 0 {
        Seq::empty()
    } else {
        attrs_bytes(attrs.drop_last()) + attr_bytes(attrs.last())
    }
}

/// Every attribute has a valid name.
pub open spec fn attr_names_valid(attrs: Seq<Attribute>) -> bool {
    forall|i: int| 0 <= i < attrs.len() ==> (#[trigger] attrs[i]).name.is_valid()
}

/// Every attribute value holds only allowed bytes.
pub open spec fn attr_values_allowed(attrs: Seq<Attribute>) -> bool {
    forall|i: int| 0 <= i < attrs.len() ==> all_allowed((#[trigger] attrs[i]).value@)
}

pub fn check_attr_names(attrs: &[Attribute]) -> (r: bool)
    ensures
        r == attr_names_valid(attrs@),
{
    let mut i: usize = 0;
    while i < attrs.len()
        invariant
            i <= attrs@.len(),
            forall|j: int| 0 <= j < i ==> (#[trigger] attrs@[j]).name.is_valid(),
        decreases attrs@.len() - i,
    {
        if !attrs[i].name.check_valid() {
            return false;
        }
        i += 1;
    }
    true
}

pub fn check_attr_values(attrs: &[Attribute]) -> (r: bool)
    ensures
        r == attr_values_allowed(attrs@),
{
    let mut i: usize = 0;
    while i < attrs.len()
        invariant
            i <= attrs@.len(),
            forall|j: int| 0 <= j < i ==> all_allowed((#[trigger] attrs@[j]).value@),
        decreases attrs@.len() - i,
    {
        if !check_allowed(attrs[i].value.as_slice()) {
            return false;
        }
        i += 1;
    }
    true
}

/// The binding a prefixed attribute in a namespace refers to; unprefixed
/// attributes belong to no namespace.
pub open spec fn attr_binding(a: Attribute) -> Seq<(Seq<u8>, Seq<u8>)> {
    match (a.name.prefix, a.name.namespace) {
        (Some(p), Some(u)) => seq![(p@, u@)],
        _ => Seq::empty(),
    }
}

pub open spec fn attr_bindings(attrs: Seq<Attribute>) -> Seq<(Seq<u8>, Seq<u8>)>
    decreases attrs.len(),
{
    if attrs.len() == 0 {
        Seq::empty()
    } else {
        attr_bindings(attrs.drop_last()) + attr_binding(attrs.last())
    }
}

/// The bindings an element start tag refers to, in order: its own name's,
/// its attributes', then those of the mapping handed with it.
pub open spec fn candidates(name: Name, attrs: Seq<Attribute>, ns: Namespace) -> Seq<
    (Seq<u8>, Seq<u8>),
> {
    (match name.binding() {
        Some(b) => seq![b],
        None => Seq::empty(),
    }) + attr_bindings(attrs) + ns.view_seq()
}

fn push_binding(v: &mut Vec<Binding>, prefix: &[u8], uri: &[u8])
    ensures
        view_bindings(final(v)@) == view_bindings(old(v)@).push((prefix@, uri@)),
{
    let mut p: Vec<u8> = Vec::new();
    append_bytes(&mut p, prefix);
    let mut u: Vec<u8> = Vec::new();
    append_bytes(&mut u, uri);
    assert(p@ =~= prefix@ && u@ =~= uri@);
    v.push(Binding { prefix: p, uri: u });
    assert(view_bindings(v@) =~= view_bindings(old(v)@).push((prefix@, uri@)));
}

pub fn collect_candidates(name: &Name, attrs: &[Attribute], ns: &Namespace) -> (r: Vec<Binding>)
    ensures
        view_bindings(r@) == candidates(*name, attrs@, *ns),
{
    let mut r: Vec<Binding> = Vec::new();
    match &name.namespace {
        Some(u) => match &name.prefix {
            Some(p) => push_binding(&mut r, p.as_slice(), u.as_slice()),
            None => {
                let default_prefix: Vec<u8> = Vec::new();
                push_binding(&mut r, default_prefix.as_slice(), u.as_slice());
            },
        },
        None => {},
    }
    let ghost own = view_bindings(r@);
    assert(own =~= match name.binding() {
        Some(b) => seq![b],
        None => Seq::empty(),
    });
    let mut i: usize = 0;
    while i < attrs.len()
        invariant
            i <= attrs@.len(),
            view_bindings(r@) == own + attr_bindings(attrs@.take(i as int)),
        decreases attrs@.len() - i,
    {
        let ghost before = view_bindings(r@);
        let a = &attrs[i];
        match (&a.name.prefix, &a.name.namespace) {
            (Some(p), Some(u)) => push_binding(&mut r, p.as_slice(), u.as_slice()),
            _ => {},
        }
        assert(view_bindings(r@) =~= before + attr_binding(attrs@[i as int]));
        assert(attrs@.take(i + 1).drop_last() =~= attrs@.take(i as int));
        i += 1;
    }
    assert(attrs@.take(i as int) =~= attrs@);
    let ghost mid = view_bindings(r@);
    let mut j: usize = 0;
    while j < ns.bindings.len()
        invariant
            j <= ns.bindings@.len(),
            view_bindings(r@) == mid + ns.view_seq().take(j as int),
        decreases ns.bindings@.len() - j,
    {
        let b = &ns.bindings[j];
        push_binding(&mut r, b.prefix.as_slice(), b.uri.as_slice());
        assert(ns.view_seq().take(j + 1) =~= ns.view_seq().take(j as int).push(
            (b.prefix@, b.uri@),
        ));
        j += 1;
    }
    assert(ns.view_seq().len() == ns.bindings@.len());
    assert(ns.view_seq().take(j as int) =~= ns.view_seq());
    r
}

/// `x` put into `s` before the first attribute whose qualified name comes
/// after its own.
pub open spec fn insert_by_qname(s: Seq<Attribute>, x: Attribute) -> Seq<Attribute>
    decreases s.len(),
{
    if s.len() == 0 {
        seq![x]
    } else if bytes_lt(x.name.qname(), s[0].name.qname()) {
        seq![x] + s
    } else {
        seq![s[0]] + insert_by_qname(s.drop_first(), x)
    }
}

/// The attributes sorted by qualified name; equal names keep their order.
pub open spec fn sort_by_qname(s: Seq<Attribute>) -> Seq<Attribute>
    decreases s.len(),
{
    if s.len() == 0 {
        Seq::empty()
    } else {
        insert_by_qname(sort_by_qname(s.drop_last()), s.last())
    }
}

proof fn lemma_insert_attr_at(s: Seq<Attribute>, x: Attribute, j: int)
    requires
        0 <= j <= s.len(),
        forall|k: int| 0 <= k < j ==> !bytes_lt(x.name.qname(), #[trigger] s[k].name.qname()),
        j == s.len() || bytes_lt(x.name.qname(), s[j].name.qname()),
    ensures
        insert_by_qname(s, x) == s.insert(j, x),
    decreases s.len(),
{
    if j == 0 {
        if s.len() == 0 {
            assert(s.insert(0, x) =~= seq![x]);
        } else {
            assert(s.insert(0, x) =~= seq![x] + s);
        }
    } else {
        let t = s.drop_first();
        assert forall|k: int| 0 <= k < j - 1 implies !bytes_lt(
            x.name.qname(),
            #[trigger] t[k].name.qname(),
        ) by {
            assert(t[k] == s[k + 1]);
        }
        assert(!bytes_lt(x.name.qname(), s[0].name.qname()));
        lemma_insert_attr_at(t, x, j - 1);
        assert(s.insert(j, x) =~= seq![s[0]] + t.insert(j - 1, x));
    }
}

/// The attributes picked by `order`.
pub open spec fn pick(attrs: Seq<Attribute>, order: Seq<usize>) -> Seq<Attribute> {
    order.map_values(|k: usize| attrs[k as int])
}

fn qname_of(a: &Attribute) -> (r: Vec<u8>)
    ensures
        r@ == a.name.qname(),
{
    let mut v: Vec<u8> = Vec::new();
    a.name.write_qname(&mut v);
    assert(v@ =~= a.name.qname());
    v
}

/// The positions of the attributes in order of their qualified names.
pub fn attribute_order(attrs: &[Attribute]) -> (r: Vec<usize>)
    ensures
        forall|k: int| 0 <= k < r@.len() ==> #[trigger] r@[k] < attrs@.len(),
        pick(attrs@, r@) == sort_by_qname(attrs@),
{
    let mut r: Vec<usize> = Vec::new();
    let mut i: usize = 0;
    assert(attrs@.take(0) =~= Seq::<Attribute>::empty());
    assert(pick(attrs@, r@) =~= Seq::<Attribute>::empty());
    while i < attrs.len()
        invariant
            i <= attrs@.len(),
            forall|k: int| 0 <= k < r@.len() ==> #[trigger] r@[k] < i,
            pick(attrs@, r@) == sort_by_qname(attrs@.take(i as int)),
        decreases attrs@.len() - i,
    {
        let key = qname_of(&attrs[i]);
        let ghost x = attrs@[i as int];
        let ghost rv = pick(attrs@, r@);
        let mut j: usize = 0;
        while j < r.len() && !bytes_less(key.as_slice(), qname_of(&attrs[r[j]]).as_slice())
            invariant
                j <= r@.len(),
                rv == pick(attrs@, r@),
                key@ == x.name.qname(),
                forall|k: int| 0 <= k < r@.len() ==> #[trigger] r@[k] < i,
                i < attrs@.len(),
                forall|k: int| 0 <= k < j ==> !bytes_lt(x.name.qname(), #[trigger] rv[k].name.qname()),
            decreases r@.len() - j,
        {
            j += 1;
        }
        proof {
            lemma_insert_attr_at(rv, x, j as int);
        }
        let ghost old_r = r@;
        r.insert(j, i);
        assert(r@ =~= old_r.insert(j as int, i));
        assert(pick(attrs@, r@) =~= rv.insert(j as int, x));
        assert(attrs@.take(i + 1).drop_last() =~= attrs@.take(i as int));
        assert(attrs@.take(i + 1).last() == x);
        assert forall|k: int| 0 <= k < r@.len() implies #[trigger] r@[k] < i + 1 by {
            if k < j {
                assert(r@[k] == old_r[k]);
            } else if k > j {
                assert(r@[k] == old_r[k - 1]);
            }
        }
        i += 1;
    }
    assert(attrs@.take(i as int) =~= attrs@);
    r
}

/// Appends the attributes sorted by qualified name.
pub fn write_sorted_attributes(target: &mut Vec<u8>, attrs: &[Attribute])
    ensures
        final(target)@ == old(target)@ + attrs_bytes(sort_by_qname(attrs@)),
{
    let order = attribute_order(attrs);
    let ghost start = target@;
    let ghost sorted = pick(attrs@, order@);
    let mut i: usize = 0;
    assert(sorted.take(0) =~= Seq::<Attribute>::empty());
    assert(target@ =~= start + attrs_bytes(sorted.take(0)));
    while i < order.len()
        invariant
            i <= order@.len(),
            sorted == pick(attrs@, order@),
            forall|k: int| 0 <= k < order@.len() ==> #[trigger] order@[k] < attrs@.len(),
            target@ == start + attrs_bytes(sorted.take(i as int)),
        decreases order@.len() - i,
    {
        let ghost before = target@;
        let a = &attrs[order[i]];
        append_bytes(target, " ".as_bytes());
        a.name.write_qname(target);
        append_bytes(target, "=\"".as_bytes());
        write_escaped(target, a.value.as_slice(), true);
        append_bytes(target, "\"".as_bytes());
        assert(sorted[i as int] == *a);
        assert(target@ =~= before + attr_bytes(sorted[i as int]));
        assert(sorted.take(i + 1).drop_last() =~= sorted.take(i as int));
        i += 1;
    }
    assert(sorted.take(i as int) =~= sorted);
}

} // verus!
