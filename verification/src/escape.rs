//! HTML text escaping: the fixed substitution table applied once, character
//! by character, to text nodes and attribute values.

use vstd::prelude::*;
use crate::strutil::push_char;

verus! {

/// The substitution for one character: each of the five special characters
/// becomes its entity, every other character stands unchanged.
pub open spec fn escape_char(c: char) -> Seq<char> {
    if c == '&' {
        "&amp;"@
    } else if c == '"' {
        "&quot;"@
    } else if c == '\'' {
        "&#x27;"@
    } else if c == '>' {
        "&gt;"@
    } else if c == '<' {
        "&lt;"@
    } else {
        seq![c]
    }
}

/// The escaped form of a text: the substitution applied to each character
/// exactly once, results concatenated in order.
pub open spec fn escape_seq(s: Seq<char>) -> Seq<char>
    decreases s.len(),
{
    if s.len() == 0 {
        seq![]
    } else {
        escape_char(s[0]) + escape_seq(s.drop_first())
    }
}

/// Escaping distributes over concatenation: each character is substituted
/// independently, so a text escapes to the escape of its parts in order.
pub proof fn lemma_escape_seq_concat(a: Seq<char>, b: Seq<char>)
    ensures
        escape_seq(a + b) == escape_seq(a) + escape_seq(b),
    decreases a.len(),
{
    if a.len() == 0 {
        assert(a + b =~= b);
        assert(escape_seq(a) + escape_seq(b) =~= escape_seq(b));
    } else {
        lemma_escape_seq_concat(a.drop_first(), b);
        assert((a + b).drop_first() =~= a.drop_first() + b);
        assert(escape_seq(a) + escape_seq(b) =~= escape_char(a[0]) + (escape_seq(a.drop_first())
            + escape_seq(b)));
    }
}

/// Escaping one more character at the end appends that character's
/// substitution.
pub proof fn lemma_escape_seq_push(s: Seq<char>, c: char)
    ensures
        escape_seq(s.push(c)) == escape_seq(s) + escape_char(c),
{
    assert(s.push(c) =~= s + seq![c]);
    lemma_escape_seq_concat(s, seq![c]);
    assert(seq![c].drop_first() =~= Seq::<char>::empty());
    assert(escape_seq(seq![c]) == escape_char(c) + escape_seq(Seq::<char>::empty()));
    assert(escape_char(c) + escape_seq(Seq::<char>::empty()) =~= escape_char(c));
}

/// Whether a character is one of the five that escaping substitutes.
pub open spec fn is_escapable(c: char) -> bool {
    c == '&' || c == '"' || c == '\'' || c == '>' || c == '<'
}

proof fn lemma_entity_contents()
    ensures
        "&amp;"@.len() == 5 && "&amp;"@[0] == '&' && "&amp;"@[1] == 'a',
        "&quot;"@.len() == 6 && "&quot;"@[0] == '&' && "&quot;"@[1] == 'q',
        "&#x27;"@.len() == 6 && "&#x27;"@[0] == '&' && "&#x27;"@[1] == '#',
        "&gt;"@.len() == 4 && "&gt;"@[0] == '&' && "&gt;"@[1] == 'g',
        "&lt;"@.len() == 4 && "&lt;"@[0] == '&' && "&lt;"@[1] == 'l',
{
    reveal_strlit("&amp;");
    reveal_strlit("&quot;");
    reveal_strlit("&#x27;");
    reveal_strlit("&gt;");
    reveal_strlit("&lt;");
}

/// The substitution code is prefix-free: the first characters of two
/// substitutions agree only when the original characters were related the
/// same way, and among the five entities the second character tells them
/// apart.
proof fn lemma_escape_char_heads(x: char, y: char)
    requires
        escape_char(x).len() <= escape_char(y).len(),
        forall|i: int| 0 <= i < escape_char(x).len() ==> escape_char(x)[i] == escape_char(y)[i],
    ensures
        x == y,
{
    lemma_entity_contents();
    if is_escapable(x) {
        assert(escape_char(x)[0] == '&');
        if !is_escapable(y) {
            assert(escape_char(y) == seq![y]);
            assert(escape_char(x).len() <= 1);
            assert(false);
        } else {
            assert(escape_char(x)[1] == escape_char(y)[1]);
            if x == '&' && y != x {
                assert(escape_char(x)[1] == 'a' && escape_char(y)[1] != 'a');
            } else if x == '"' && y != x {
                assert(escape_char(x)[1] == 'q' && escape_char(y)[1] != 'q');
            } else if x == '\'' && y != x {
                assert(escape_char(x)[1] == '#' && escape_char(y)[1] != '#');
            } else if x == '>' && y != x {
                assert(escape_char(x)[1] == 'g' && escape_char(y)[1] != 'g');
            } else if x == '<' && y != x {
                assert(escape_char(x)[1] == 'l' && escape_char(y)[1] != 'l');
            }
        }
    } else {
        assert(escape_char(x) == seq![x]);
        if is_escapable(y) {
            assert(escape_char(y)[0] == '&');
            assert(x == '&');
            assert(false);
        } else {
            assert(escape_char(y) == seq![y]);
            assert(escape_char(x)[0] == escape_char(y)[0]);
        }
    }
}

/// Escaping is unambiguous: two texts with the same escaped form are the
/// same text, so an escaped text can never be mistaken for the escape of
/// any other.
pub proof fn lemma_escape_injective(a: Seq<char>, b: Seq<char>)
    requires
        escape_seq(a) == escape_seq(b),
    ensures
        a == b,
    decreases a.len(),
{
    lemma_entity_contents();
    if a.len() == 0 {
        if b.len() > 0 {
            assert(escape_char(b[0]).len() >= 1);
            assert(escape_seq(b).len() >= escape_char(b[0]).len());
            assert(false);
        }
        assert(a =~= b);
    } else if b.len() == 0 {
        assert(escape_char(a[0]).len() >= 1);
        assert(escape_seq(a).len() >= escape_char(a[0]).len());
        assert(false);
    } else {
        let ea = escape_char(a[0]);
        let eb = escape_char(b[0]);
        let ra = escape_seq(a.drop_first());
        let rb = escape_seq(b.drop_first());
        assert(escape_seq(a) == ea + ra);
        assert(escape_seq(b) == eb + rb);
        if ea.len() <= eb.len() {
            assert(forall|i: int| 0 <= i < ea.len() ==> ea[i] == (ea + ra)[i] && eb[i] == (eb
                + rb)[i]);
            lemma_escape_char_heads(a[0], b[0]);
        } else {
            assert(forall|i: int| 0 <= i < eb.len() ==> ea[i] == (ea + ra)[i] && eb[i] == (eb
                + rb)[i]);
            lemma_escape_char_heads(b[0], a[0]);
        }
        assert(a[0] == b[0]);
        assert(ra =~= rb) by {
            assert(ra.len() == rb.len());
            assert(forall|i: int|
                0 <= i < ra.len() ==> ra[i] == (ea + ra)[ea.len() + i] && rb[i] == (eb + rb)[
                eb.len() + i]);
        }
        lemma_escape_injective(a.drop_first(), b.drop_first());
        assert(a.len() == b.len());
        assert(forall|i: int|
            1 <= i < a.len() ==> a[i] == a.drop_first()[i - 1] && b[i] == b.drop_first()[i - 1]);
        assert(a =~= b);
    }
}

/// Escapes a text by the fixed substitution table.
pub fn escape_html(input: &str) -> (r: String)
    ensures
        r@ == escape_seq(input@),
{
    let mut out = String::new();
    for c in it: input.chars()
        invariant
            it.seq() == input@,
            out@ == escape_seq(input@.take(it.index() as int)),
    {
        proof {
            lemma_escape_seq_push(input@.take(it.index() as int), c);
            assert(input@.take(it.index() as int).push(c) =~= input@.take(it.index() + 1));
        }
        if c == '&' {
            out.append("&amp;");
        } else if c == '"' {
            out.append("&quot;");
        } else if c == '\'' {
            out.append("&#x27;");
        } else if c == '>' {
            out.append("&gt;");
        } else if c == '<' {
            out.append("&lt;");
        } else {
            push_char(&mut out, c);
        }
    }
    proof {
        assert(input@.take(input@.len() as int) =~= input@);
    }
    out
}

} // verus!
