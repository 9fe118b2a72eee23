//! Entity escaping of the four reserved characters, and its inverse.
use vstd::prelude::*;

use crate::text::chars_of;

verus! {

pub open spec fn amp_entity() -> Seq<char> {
    seq!['&', 'a', 'm', 'p', ';']
}

pub open spec fn lt_entity() -> Seq<char> {
    seq!['&', 'l', 't', ';']
}

pub open spec fn gt_entity() -> Seq<char> {
    seq!['&', 'g', 't', ';']
}

pub open spec fn quot_entity() -> Seq<char> {
    seq!['&', 'q', 'u', 'o', 't', ';']
}

/// What one character is written as.
pub open spec fn escape_char(c: char) -> Seq<char> {
    if c == '&' {
        amp_entity()
    } else if c == '<' {
        lt_entity()
    } else if c == '>' {
        gt_entity()
    } else if c == '"' {
        quot_entity()
    } else {
        seq![c]
    }
}

/// `s` with each reserved character replaced by its entity.
pub open spec fn escape(s: Seq<char>) -> Seq<char>
    decreases s.len(),
{
    if s.len() == 0 {
        Seq::empty()
    } else {
        escape_char(s[0]) + escape(s.drop_first())
    }
}

/// Whether `s` begins with `p`.
pub open spec fn has_prefix(s: Seq<char>, p: Seq<char>) -> bool {
    p.len() <= s.len() && s.subrange(0, p.len() as int) == p
}

/// `s` with each of the four entities replaced by its character; any other
/// `&` stays as it is.
pub open spec fn unescape(s: Seq<char>) -> Seq<char>
    decreases s.len(),
{
    if s.len() == 0 {
        Seq::empty()
    } else if has_prefix(s, amp_entity()) {
        seq!['&'] + unescape(s.subrange(5, s.len() as int))
    } else if has_prefix(s, lt_entity()) {
        seq!['<'] + unescape(s.subrange(4, s.len() as int))
    } else if has_prefix(s, gt_entity()) {
        seq!['>'] + unescape(s.subrange(4, s.len() as int))
    } else if has_prefix(s, quot_entity()) {
        seq!['"'] + unescape(s.subrange(6, s.len() as int))
    } else {
        seq![s[0]] + unescape(s.drop_first())
    }
}

pub proof fn lemma_escape_push(s: Seq<char>, c: char)
    ensures
        escape(s.push(c)) == escape(s) + escape_char(c),
    decreases s.len(),
{
    if s.len() == 0 {
        assert(s.push(c).drop_first() =~= Seq::<char>::empty());
        assert(escape(s.push(c)) == escape_char(c) + escape(Seq::<char>::empty()));
        assert(escape(s.push(c)) =~= escape_char(c));
        assert(escape(s) =~= Seq::<char>::empty());
    } else {
        lemma_escape_push(s.drop_first(), c);
        assert(s.push(c).drop_first() =~= s.drop_first().push(c));
        assert(s.push(c)[0] == s[0]);
        assert(escape(s.push(c)) =~= escape(s) + escape_char(c));
    }
}

/// No escaped text holds a reserved character.
pub proof fn lemma_escape_clean(s: Seq<char>)
    ensures
        forall|i: int|
            0 <= i < escape(s).len() ==> {
                let c = #[trigger] escape(s)[i];
                c != '<' && c != '>' && c != '"'
            },
    decreases s.len(),
{
    if s.len() > 0 {
        lemma_escape_clean(s.drop_first());
        let h = escape_char(s[0]);
        let t = escape(s.drop_first());
        assert forall|i: int| 0 <= i < escape(s).len() implies {
            let c = #[trigger] escape(s)[i];
            c != '<' && c != '>' && c != '"'
        } by {
            if i < h.len() {
                assert(escape(s)[i] == h[i]);
            } else {
                assert(escape(s)[i] == t[i - h.len()]);
            }
        }
    }
}

pub proof fn lemma_unescape_step(c: char, rest: Seq<char>)
    ensures
        unescape(escape_char(c) + rest) == seq![c] + unescape(rest),
{
    let s = escape_char(c) + rest;
    if c == '&' {
        assert(s.subrange(0, 5) =~= amp_entity());
        assert(s.subrange(5, s.len() as int) =~= rest);
    } else if c == '<' {
        if has_prefix(s, amp_entity()) {
            assert(s.subrange(0, 5)[1] == s[1]);
        }
        assert(s.subrange(0, 4) =~= lt_entity());
        assert(s.subrange(4, s.len() as int) =~= rest);
    } else if c == '>' {
        if has_prefix(s, amp_entity()) {
            assert(s.subrange(0, 5)[1] == s[1]);
        }
        if has_prefix(s, lt_entity()) {
            assert(s.subrange(0, 4)[1] == s[1]);
        }
        assert(s.subrange(0, 4) =~= gt_entity());
        assert(s.subrange(4, s.len() as int) =~= rest);
    } else if c == '"' {
        if has_prefix(s, amp_entity()) {
            assert(s.subrange(0, 5)[1] == s[1]);
        }
        if has_prefix(s, lt_entity()) {
            assert(s.subrange(0, 4)[1] == s[1]);
        }
        if has_prefix(s, gt_entity()) {
            assert(s.subrange(0, 4)[1] == s[1]);
        }
        assert(s.subrange(0, 6) =~= quot_entity());
        assert(s.subrange(6, s.len() as int) =~= rest);
    } else {
        assert(s[0] == c);
        if has_prefix(s, amp_entity()) {
            assert(s.subrange(0, 5)[0] == '&');
        }
        if has_prefix(s, lt_entity()) {
            assert(s.subrange(0, 4)[0] == '&');
        }
        if has_prefix(s, gt_entity()) {
            assert(s.subrange(0, 4)[0] == '&');
        }
        if has_prefix(s, quot_entity()) {
            assert(s.subrange(0, 6)[0] == '&');
        }
        assert(s.drop_first() =~= rest);
    }
}

/// Unescaping undoes escaping.
pub proof fn lemma_unescape_escape(s: Seq<char>)
    ensures
        unescape(escape(s)) == s,
    decreases s.len(),
{
    if s.len() > 0 {
        lemma_unescape_escape(s.drop_first());
        lemma_unescape_step(s[0], escape(s.drop_first()));
        assert(seq![s[0]] + s.drop_first() =~= s);
    }
}

/// Appends the escaped form of `s` to `out`.
pub fn push_escaped(out: &mut String, s: &str)
    ensures
        final(out)@ == old(out)@ + escape(s@),
{
    let v = chars_of(s);
    let mut i: usize = 0;
    while i < v.len()
        invariant
            v@ == s@,
            i <= v@.len(),
            out@ == old(out)@ + escape(v@.subrange(0, i as int)),
        decreases v@.len() - i,
    {
        let c = v[i];
        proof {
            lemma_escape_push(v@.subrange(0, i as int), c);
            assert(v@.subrange(0, i + 1) =~= v@.subrange(0, i as int).push(c));
        }
        if c == '&' {
            out.push('&');
            out.push('a');
            out.push('m');
            out.push('p');
            out.push(';');
        } else if c == '<' {
            out.push('&');
            out.push('l');
            out.push('t');
            out.push(';');
        } else if c == '>' {
            out.push('&');
            out.push('g');
            out.push('t');
            out.push(';');
        } else if c == '"' {
            out.push('&');
            out.push('q');
            out.push('u');
            out.push('o');
            out.push('t');
            out.push(';');
        } else {
            out.push(c);
        }
        assert(out@ =~= old(out)@ + escape(v@.subrange(0, i + 1)));
        i = i + 1;
    }
    assert(v@.subrange(0, v@.len() as int) =~= s@);
}

/// Whether `v[i..to]` begins with `p`.
fn at(v: &Vec<char>, i: usize, to: usize, p: &[char]) -> (r: bool)
    requires
        i <= to <= v@.len(),
    ensures
        r == has_prefix(v@.subrange(i as int, to as int), p@),
{
    let n = p.len();
    if n > to - i {
        return false;
    }
    let mut k: usize = 0;
    while k < n
        invariant
            n == p@.len(),
            i + n <= to <= v@.len(),
            k <= n,
            forall|j: int| 0 <= j < k ==> v@[i + j] == p@[j],
        decreases n - k,
    {
        if v[i + k] != p[k] {
            assert(v@.subrange(i as int, to as int).subrange(0, n as int)[k as int] != p@[k as int]);
            return false;
        }
        k = k + 1;
    }
    assert(v@.subrange(i as int, to as int).subrange(0, n as int) =~= p@);
    true
}

/// Appends the unescaped form of `v[from..to]` to `out`.
pub fn push_unescaped(out: &mut String, v: &Vec<char>, from: usize, to: usize)
    requires
        from <= to <= v@.len(),
    ensures
        final(out)@ == old(out)@ + unescape(v@.subrange(from as int, to as int)),
{
    let amp = ['&', 'a', 'm', 'p', ';'];
    let lt = ['&', 'l', 't', ';'];
    let gt = ['&', 'g', 't', ';'];
    let quot = ['&', 'q', 'u', 'o', 't', ';'];
    assert(amp@ =~= amp_entity());
    assert(lt@ =~= lt_entity());
    assert(gt@ =~= gt_entity());
    assert(quot@ =~= quot_entity());
    let mut i: usize = from;
    while i < to
        invariant
            from <= i <= to <= v@.len(),
            amp@ == amp_entity(),
            lt@ == lt_entity(),
            gt@ == gt_entity(),
            quot@ == quot_entity(),
            old(out)@ + unescape(v@.subrange(from as int, to as int)) == out@ + unescape(
                v@.subrange(i as int, to as int),
            ),
        decreases to - i,
    {
        let ghost rest = v@.subrange(i as int, to as int);
        if at(v, i, to, amp.as_slice()) {
            out.push('&');
            assert(rest.subrange(5, rest.len() as int) =~= v@.subrange(i + 5, to as int));
            i = i + 5;
        } else if at(v, i, to, lt.as_slice()) {
            out.push('<');
            assert(rest.subrange(4, rest.len() as int) =~= v@.subrange(i + 4, to as int));
            i = i + 4;
        } else if at(v, i, to, gt.as_slice()) {
            out.push('>');
            assert(rest.subrange(4, rest.len() as int) =~= v@.subrange(i + 4, to as int));
            i = i + 4;
        } else if at(v, i, to, quot.as_slice()) {
            out.push('"');
            assert(rest.subrange(6, rest.len() as int) =~= v@.subrange(i + 6, to as int));
            i = i + 6;
        } else {
            out.push(v[i]);
            assert(rest.drop_first() =~= v@.subrange(i + 1, to as int));
            i = i + 1;
        }
        assert(old(out)@ + unescape(v@.subrange(from as int, to as int)) =~= out@ + unescape(
            v@.subrange(i as int, to as int),
        ));
    }
    assert(unescape(v@.subrange(to as int, to as int)) =~= Seq::<char>::empty());
    assert(out@ =~= out@ + Seq::<char>::empty());
}

} // verus!
