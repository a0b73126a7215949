use vstd::prelude::*;

verus! {

/// `&amp;`
pub open spec fn amp_entity() -> Seq<u8> {
    seq![38u8, 97u8, 109u8, 112u8, 59u8]
}

/// `&lt;`
pub open spec fn lt_entity() -> Seq<u8> {
    seq![38u8, 108u8, 116u8, 59u8]
}

/// `&gt;`
pub open spec fn gt_entity() -> Seq<u8> {
    seq![38u8, 103u8, 116u8, 59u8]
}

/// `&quot;`
pub open spec fn quot_entity() -> Seq<u8> {
    seq![38u8, 113u8, 117u8, 111u8, 116u8, 59u8]
}

/// `&#xA;`
pub open spec fn lf_entity() -> Seq<u8> {
    seq![38u8, 35u8, 120u8, 65u8, 59u8]
}

/// `&#xD;`
pub open spec fn cr_entity() -> Seq<u8> {
    seq![38u8, 35u8, 120u8, 68u8, 59u8]
}

/// `&#x9;`
pub open spec fn tab_entity() -> Seq<u8> {
    seq![38u8, 35u8, 120u8, 57u8, 59u8]
}

/// How one byte is written: in text content `&`, `<` and `>` become entity
/// references; in an attribute value `"`, line feed, carriage return and tab
/// do too. Every other byte (including each byte of a multi-byte UTF-8
/// sequence) is written as it is.
pub open spec fn escape_byte(b: u8, attr: bool) -> Seq<u8> {
    if b == 38 {
        amp_entity()
    } else if b == 60 {
        lt_entity()
    } else if b == 62 {
        gt_entity()
    } else if attr && b == 34 {
        quot_entity()
    } else if attr && b == 10 {
        lf_entity()
    } else if attr && b == 13 {
        cr_entity()
    } else if attr && b == 9 {
        tab_entity()
    } else {
        seq![b]
    }
}

/// The escaped form of a byte string: each byte escaped in turn.
pub open spec fn escape(s: Seq<u8>, attr: bool) -> Seq<u8>
    decreases s.len(),
{
    if s.len() == 0 {
        Seq::empty()
    } else {
        escape(s.drop_last(), attr) + escape_byte(s.last(), attr)
    }
}

/// `t` begins with `e`.
pub open spec fn starts_with(t: Seq<u8>, e: Seq<u8>) -> bool {
    t.len() >= e.len() && forall|i: int| 0 <= i < e.len() ==> t[i] == e[i]
}

/// Reads escaped text back: each of the seven entity references above stands
/// for its byte, every other byte for itself.
pub open spec fn unescape(t: Seq<u8>) -> Seq<u8>
    decreases t.len(),
{
    if t.len() == 0 {
        Seq::empty()
    } else if starts_with(t, amp_entity()) {
        seq![38u8] + unescape(t.skip(5))
    } else if starts_with(t, lt_entity()) {
        seq![60u8] + unescape(t.skip(4))
    } else if starts_with(t, gt_entity()) {
        seq![62u8] + unescape(t.skip(4))
    } else if starts_with(t, quot_entity()) {
        seq![34u8] + unescape(t.skip(6))
    } else if starts_with(t, lf_entity()) {
        seq![10u8] + unescape(t.skip(5))
    } else if starts_with(t, cr_entity()) {
        seq![13u8] + unescape(t.skip(5))
    } else if starts_with(t, tab_entity()) {
        seq![9u8] + unescape(t.skip(5))
    } else {
        seq![t[0]] + unescape(t.skip(1))
    }
}

/// Escaping distributes over concatenation.
pub proof fn lemma_escape_concat(a: Seq<u8>, b: Seq<u8>, attr: bool)
    ensures
        escape(a + b, attr) == escape(a, attr) + escape(b, attr),
    decreases b.len(),
{
    if b.len() == 0 {
        assert(a + b =~= a);
        assert(escape(a, attr) + escape(b, attr) =~= escape(a, attr));
    } else {
        lemma_escape_concat(a, b.drop_last(), attr);
        assert((a + b).drop_last() =~= a + b.drop_last());
        assert((a + b).last() == b.last());
        assert(escape(a + b, attr) =~= escape(a, attr) + escape(b.drop_last(), attr) + escape_byte(
            b.last(),
            attr,
        ));
    }
}

proof fn lemma_unescape_one(b: u8, r: Seq<u8>, attr: bool)
    ensures
        unescape(escape_byte(b, attr) + r) == seq![b] + unescape(r),
{
    let t = escape_byte(b, attr) + r;
    let e = escape_byte(b, attr);
    assert(t.len() > 0);
    assert forall|i: int| 0 <= i < e.len() implies t[i] == e[i] by {}
    if e.len() == 1 {
        assert(t[0] == b);
        assert(b != 38);
        assert(!starts_with(t, amp_entity()) && !starts_with(t, lt_entity()) && !starts_with(
            t,
            gt_entity(),
        ) && !starts_with(t, quot_entity()) && !starts_with(t, lf_entity()) && !starts_with(
            t,
            cr_entity(),
        ) && !starts_with(t, tab_entity())) by {
            assert(amp_entity()[0] == 38 && lt_entity()[0] == 38 && gt_entity()[0] == 38);
            assert(quot_entity()[0] == 38 && lf_entity()[0] == 38 && cr_entity()[0] == 38);
            assert(tab_entity()[0] == 38);
        }
        assert(t.skip(1) =~= r);
    } else {
        assert(t[0] == 38);
        assert(t.skip(e.len() as int) =~= r);
        assert(t[1] == e[1]);
        assert(t[2] == e[2]);
        assert(t[3] == e[3]);
        if b == 38 {
            assert(starts_with(t, amp_entity()));
        } else if b == 60 {
            assert(!starts_with(t, amp_entity())) by { assert(amp_entity()[1] == 97) }
            assert(starts_with(t, lt_entity()));
        } else if b == 62 {
            assert(!starts_with(t, amp_entity())) by { assert(amp_entity()[1] == 97) }
            assert(!starts_with(t, lt_entity())) by { assert(lt_entity()[1] == 108) }
            assert(starts_with(t, gt_entity()));
        } else if b == 34 {
            assert(!starts_with(t, amp_entity())) by { assert(amp_entity()[1] == 97) }
            assert(!starts_with(t, lt_entity())) by { assert(lt_entity()[1] == 108) }
            assert(!starts_with(t, gt_entity())) by { assert(gt_entity()[1] == 103) }
            assert(starts_with(t, quot_entity()));
        } else {
            assert(!starts_with(t, amp_entity())) by { assert(amp_entity()[1] == 97) }
            assert(!starts_with(t, lt_entity())) by { assert(lt_entity()[1] == 108) }
            assert(!starts_with(t, gt_entity())) by { assert(gt_entity()[1] == 103) }
            assert(!starts_with(t, quot_entity())) by { assert(quot_entity()[1] == 113) }
            assert(t[3] == e[3]);
            if b == 10 {
                assert(starts_with(t, lf_entity()));
            } else if b == 13 {
                assert(!starts_with(t, lf_entity())) by { assert(lf_entity()[3] == 65) }
                assert(starts_with(t, cr_entity()));
            } else {
                assert(!starts_with(t, lf_entity())) by { assert(lf_entity()[3] == 65) }
                assert(!starts_with(t, cr_entity())) by { assert(cr_entity()[3] == 68) }
                assert(starts_with(t, tab_entity()));
            }
        }
    }
}

/// Reading an escaped attribute value or text back gives the bytes that were
/// escaped.
pub proof fn lemma_unescape_escape(s: Seq<u8>, attr: bool)
    ensures
        unescape(escape(s, attr)) == s,
    decreases s.len(),
{
    if s.len() > 0 {
        let rest = s.drop_first();
        lemma_escape_concat(seq![s[0]], rest, attr);
        assert(seq![s[0]] + rest =~= s);
        assert(seq![s[0]].drop_last() =~= Seq::<u8>::empty());
        assert(seq![s[0]].last() == s[0]);
        assert(escape(Seq::<u8>::empty(), attr) =~= Seq::<u8>::empty());
        assert(escape(seq![s[0]], attr) =~= escape_byte(s[0], attr));
        lemma_unescape_one(s[0], escape(rest, attr), attr);
        lemma_unescape_escape(rest, attr);
        assert(seq![s[0]] + rest =~= s);
    }
}

fn push_escaped_byte(target: &mut Vec<u8>, b: u8, attr: bool)
    ensures
        final(target)@ == old(target)@ + escape_byte(b, attr),
{
    let ghost start = target@;
    if b == 38 {
        target.push(38u8);
        target.push(97u8);
        target.push(109u8);
        target.push(112u8);
        target.push(59u8);
    } else if b == 60 || b == 62 {
        target.push(38u8);
        target.push(if b == 60 { 108u8 } else { 103u8 });
        target.push(116u8);
        target.push(59u8);
    } else if attr && b == 34 {
        target.push(38u8);
        target.push(113u8);
        target.push(117u8);
        target.push(111u8);
        target.push(116u8);
        target.push(59u8);
    } else if attr && (b == 10 || b == 13 || b == 9) {
        target.push(38u8);
        target.push(35u8);
        target.push(120u8);
        target.push(if b == 10 { 65u8 } else if b == 13 { 68u8 } else { 57u8 });
        target.push(59u8);
    } else {
        target.push(b);
    }
    assert(target@ =~= start + escape_byte(b, attr));
}

/// Appends `s` to `target`, escaped for an attribute value (`attr`) or for
/// text content.
pub fn write_escaped(target: &mut Vec<u8>, s: &[u8], attr: bool)
    ensures
        final(target)@ == old(target)@ + escape(s@, attr),
{
    let ghost start = target@;
    let mut i: usize = 0;
    while i < s.len()
        invariant
            i <= s@.len(),
            target@ == start + escape(s@.take(i as int), attr),
        decreases s@.len() - i,
    {
        push_escaped_byte(target, s[i], attr);
        assert(s@.take(i + 1).drop_last() =~= s@.take(i as int));
        i += 1;
    }
    assert(s@.take(i as int) =~= s@);
}

} // verus!
