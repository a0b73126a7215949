use vstd::prelude::*;
use vstd::string::StringSliceAdditionalSpecFns;

verus! {

/// Appends every byte of `s` to `target`.
pub fn append_bytes(target: &mut Vec<u8>, s: &[u8])
    ensures
        final(target)@ == old(target)@ + s@,
{
    let ghost start = target@;
    let mut i: usize = 0;
    while i < s.len()
        invariant
            i <= s@.len(),
            target@ == start + s@.take(i as int),
        decreases s@.len() - i,
    {
        target.push(s[i]);
        assert(s@.take(i + 1) =~= s@.take(i as int).push(s@[i as int]));
        i += 1;
    }
    assert(s@.take(i as int) =~= s@);
}

/// The UTF-8 bytes of `s` in a vector of their own.
pub fn bytes_of(s: &str) -> (r: Vec<u8>)
    ensures
        r@ == s.spec_bytes(),
{
    let mut v: Vec<u8> = Vec::new();
    append_bytes(&mut v, s.as_bytes());
    assert(v@ =~= s.spec_bytes());
    v
}

/// Byte-wise equality.
pub fn bytes_eq(a: &[u8], b: &[u8]) -> (r: bool)
    ensures
        r == (a@ == b@),
{
    if a.len() != b.len() {
        return false;
    }
    let mut i: usize = 0;
    while i < a.len()
        invariant
            a@.len() == b@.len(),
            i <= a@.len(),
            forall|j: int| 0 <= j < i ==> a@[j] == b@[j],
        decreases a@.len() - i,
    {
        if a[i] != b[i] {
            return false;
        }
        i += 1;
    }
    assert(a@ =~= b@);
    true
}

/// A byte that may begin a name: an ASCII letter, `_`, or any byte of a
/// non-ASCII UTF-8 sequence.
pub open spec fn is_name_start_byte(b: u8) -> bool {
    (65 <= b <= 90) || (97 <= b <= 122) || b == 95 || b >= 128
}

/// A byte that may continue a name: a start byte, an ASCII digit, `-` or `.`.
pub open spec fn is_name_byte(b: u8) -> bool {
    is_name_start_byte(b) || (48 <= b <= 57) || b == 45 || b == 46
}

/// A name without a colon (a local part or a prefix): non-empty, a start byte
/// followed by name bytes.
pub open spec fn is_ncname(s: Seq<u8>) -> bool {
    s.len() > 0 && is_name_start_byte(s[0]) && forall|i: int|
        1 <= i < s.len() ==> is_name_byte(#[trigger] s[i])
}

pub fn name_start_byte(b: u8) -> (r: bool)
    ensures
        r == is_name_start_byte(b),
{
    (65 <= b && b <= 90) || (97 <= b && b <= 122) || b == 95 || b >= 128
}

pub fn name_byte(b: u8) -> (r: bool)
    ensures
        r == is_name_byte(b),
{
    name_start_byte(b) || (48 <= b && b <= 57) || b == 45 || b == 46
}

pub fn check_ncname(s: &[u8]) -> (r: bool)
    ensures
        r == is_ncname(s@),
{
    if s.len() == 0 || !name_start_byte(s[0]) {
        return false;
    }
    let mut i: usize = 1;
    while i < s.len()
        invariant
            1 <= i <= s@.len(),
            forall|j: int| 1 <= j < i ==> is_name_byte(#[trigger] s@[j]),
        decreases s@.len() - i,
    {
        if !name_byte(s[i]) {
            return false;
        }
        i += 1;
    }
    true
}

/// A qualified name: a local part, an optional prefix and an optional
/// namespace URI, each as UTF-8 bytes.
pub struct Name {
    pub local_name: Vec<u8>,
    pub prefix: Option<Vec<u8>>,
    pub namespace: Option<Vec<u8>>,
}

/// The bytes of an optional prefix, empty when absent.
pub open spec fn prefix_bytes(p: Option<Vec<u8>>) -> Seq<u8> {
    match p {
        Some(v) => v@,
        None => Seq::empty(),
    }
}

impl Name {
    /// `prefix:local`, or `local` without a prefix.
    pub open spec fn qname(&self) -> Seq<u8> {
        match self.prefix {
            Some(p) => p@ + seq![58u8] + self.local_name@,
            None => self.local_name@,
        }
    }

    /// The local part is a name, and so is the prefix when there is one.
    pub open spec fn is_valid(&self) -> bool {
        &&& is_ncname(self.local_name@)
        &&& self.prefix matches Some(p) ==> is_ncname(p@)
    }

    /// The namespace binding this name refers to: its prefix (empty for the
    /// default namespace) and its URI, when it has one.
    pub open spec fn binding(&self) -> Option<(Seq<u8>, Seq<u8>)> {
        match self.namespace {
            Some(u) => Some((prefix_bytes(self.prefix), u@)),
            None => None,
        }
    }

    /// A name with no prefix and no namespace.
    pub fn local(local_name: &str) -> (r: Name)
        ensures
            r.local_name@ == local_name.spec_bytes(),
            r.prefix is None,
            r.namespace is None,
    {
        Name { local_name: bytes_of(local_name), prefix: None, namespace: None }
    }

    /// A name in the namespace `namespace`, written with `prefix` when given.
    pub fn qualified(local_name: &str, namespace: &str, prefix: Option<&str>) -> (r: Name)
        ensures
            r.local_name@ == local_name.spec_bytes(),
            r.namespace matches Some(u) && u@ == namespace.spec_bytes(),
            match prefix {
                Some(p) => r.prefix matches Some(q) && q@ == p.spec_bytes(),
                None => r.prefix is None,
            },
    {
        let p = match prefix {
            Some(p) => Some(bytes_of(p)),
            None => None,
        };
        Name { local_name: bytes_of(local_name), prefix: p, namespace: Some(bytes_of(namespace)) }
    }

    pub fn check_valid(&self) -> (r: bool)
        ensures
            r == self.is_valid(),
    {
        if !check_ncname(self.local_name.as_slice()) {
            return false;
        }
        match &self.prefix {
            Some(p) => check_ncname(p.as_slice()),
            None => true,
        }
    }

    /// Appends the qualified name to `target`.
    pub fn write_qname(&self, target: &mut Vec<u8>)
        ensures
            final(target)@ == old(target)@ + self.qname(),
    {
        let ghost start = target@;
        match &self.prefix {
            Some(p) => {
                append_bytes(target, p.as_slice());
                target.push(58u8);
            },
            None => {},
        }
        append_bytes(target, self.local_name.as_slice());
        assert(target@ =~= start + self.qname());
    }

    /// Whether two names are written alike.
    pub fn same_qname(&self, other: &Name) -> (r: bool)
        ensures
            r == (self.qname() == other.qname()),
    {
        let mut a: Vec<u8> = Vec::new();
        self.write_qname(&mut a);
        let mut b: Vec<u8> = Vec::new();
        other.write_qname(&mut b);
        assert(a@ =~= self.qname());
        assert(b@ =~= other.qname());
        bytes_eq(a.as_slice(), b.as_slice())
    }

    pub fn clone_name(&self) -> (r: Name)
        ensures
            r.local_name@ == self.local_name@,
            prefix_bytes(r.prefix) == prefix_bytes(self.prefix),
            r.prefix is Some == self.prefix is Some,
            r.qname() == self.qname(),
            r.binding() == self.binding(),
            r.is_valid() == self.is_valid(),
    {
        let local_name = copy_vec(&self.local_name);
        let prefix = match &self.prefix {
            Some(p) => Some(copy_vec(p)),
            None => None,
        };
        let namespace = match &self.namespace {
            Some(u) => Some(copy_vec(u)),
            None => None,
        };
        Name { local_name, prefix, namespace }
    }
}

/// A copy of a byte vector.
pub fn copy_vec(v: &Vec<u8>) -> (r: Vec<u8>)
    ensures
        r@ == v@,
{
    let mut r: Vec<u8> = Vec::new();
    append_bytes(&mut r, v.as_slice());
    assert(r@ =~= v@);
    r
}

/// An attribute: a qualified name and its unescaped value.
pub struct Attribute {
    pub name: Name,
    pub value: Vec<u8>,
}

impl Attribute {
    pub fn new(name: Name, value: &str) -> (r: Attribute)
        ensures
            r.name == name,
            r.value@ == value.spec_bytes(),
    {
        Attribute { name, value: bytes_of(value) }
    }
}

} // verus!
