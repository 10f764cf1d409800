//! Escaping text for XML.

use crate::seqs::lemma_flat_end;
use crate::strs::chars_of;
use vstd::prelude::*;

verus! {

/// What stands for `c` in XML text and in double-quoted attributes.
pub open spec fn markup_entity(c: char) -> Seq<char> {
    if c == '&' {
        "&amp;"@
    } else if c == '<' {
        "&lt;"@
    } else if c == '>' {
        "&gt;"@
    } else if c == '"' {
        "&quot;"@
    } else {
        seq![c]
    }
}

/// What stands for `c` in XML text and in attributes quoted either way.
pub open spec fn xml_entity(c: char) -> Seq<char> {
    if c == '\'' {
        "&apos;"@
    } else {
        markup_entity(c)
    }
}

/// `s` with the four characters of XML markup written as entities.
pub open spec fn escaped_markup(s: Seq<char>) -> Seq<char>
    decreases s.len(),
{
    if s.len() == 0 {
        seq![]
    } else {
        escaped_markup(s.drop_last()) + markup_entity(s.last())
    }
}

/// `s` with the five characters that XML reserves written as entities.
pub open spec fn xml_escaped(s: Seq<char>) -> Seq<char>
    decreases s.len(),
{
    if s.len() == 0 {
        seq![]
    } else {
        xml_escaped(s.drop_last()) + xml_entity(s.last())
    }
}

fn push_markup(out: &mut String, c: char)
    ensures
        final(out)@ == old(out)@ + markup_entity(c),
{
    if c == '&' {
        out.append("&amp;");
    } else if c == '<' {
        out.append("&lt;");
    } else if c == '>' {
        out.append("&gt;");
    } else if c == '"' {
        out.append("&quot;");
    } else {
        out.push(c);
    }
}

/// Writes `&`, `<`, `>` and `"` as entities.
pub fn escape_markup(s: &str) -> (r: String)
    ensures
        r@ == escaped_markup(s@),
{
    let x = chars_of(s);
    let mut out = String::new();
    let mut i: usize = 0;
    while i < x.len()
        invariant
            i <= x@.len(),
            out@ == escaped_markup(x@.take(i as int)),
        decreases x@.len() - i,
    {
        proof {
            assert(x@.take(i + 1).drop_last() =~= x@.take(i as int));
        }
        push_markup(&mut out, x[i]);
        i += 1;
    }
    proof {
        assert(x@.take(i as int) =~= s@);
    }
    out
}

/// Writes `&`, `<`, `>`, `"` and `'` as entities.
pub fn xml_escape(s: &str) -> (r: String)
    ensures
        r@ == xml_escaped(s@),
{
    let x = chars_of(s);
    let mut out = String::new();
    let mut i: usize = 0;
    while i < x.len()
        invariant
            i <= x@.len(),
            out@ == xml_escaped(x@.take(i as int)),
        decreases x@.len() - i,
    {
        proof {
            assert(x@.take(i + 1).drop_last() =~= x@.take(i as int));
        }
        if x[i] == '\'' {
            out.append("&apos;");
        } else {
            push_markup(&mut out, x[i]);
        }
        i += 1;
    }
    proof {
        assert(x@.take(i as int) =~= s@);
    }
    out
}

/// Escaped text holds none of the characters that would open or close markup.
pub proof fn escaped_text_is_inert(s: Seq<char>)
    ensures
        forall|i: int|
            0 <= i < xml_escaped(s).len() ==> {
                let c = #[trigger] xml_escaped(s)[i];
                c != '<' && c != '>' && c != '"' && c != '\''
            },
    decreases s.len(),
{
    reveal_strlit("&amp;");
    reveal_strlit("&lt;");
    reveal_strlit("&gt;");
    reveal_strlit("&quot;");
    reveal_strlit("&apos;");
    if s.len() > 0 {
        let init = s.drop_last();
        escaped_text_is_inert(init);
        assert forall|i: int| 0 <= i < xml_escaped(s).len() implies {
            let c = #[trigger] xml_escaped(s)[i];
            c != '<' && c != '>' && c != '"' && c != '\''
        } by {
            if i < xml_escaped(init).len() {
                assert(xml_escaped(s)[i] == xml_escaped(init)[i]);
            } else {
                assert(xml_escaped(s)[i] == xml_entity(s.last())[i - xml_escaped(init).len()]);
            }
        }
    }
}

/// The characters with a meaning in XML are written as entities, all others as
/// themselves.
pub proof fn characters_have_their_entities(c: char)
    ensures
        markup_entity('&') == "&amp;"@,
        markup_entity('<') == "&lt;"@,
        markup_entity('>') == "&gt;"@,
        markup_entity('"') == "&quot;"@,
        xml_entity('&') == "&amp;"@,
        xml_entity('<') == "&lt;"@,
        xml_entity('>') == "&gt;"@,
        xml_entity('"') == "&quot;"@,
        xml_entity('\'') == "&apos;"@,
        c != '&' && c != '<' && c != '>' && c != '"' ==> markup_entity(c) == seq![c],
        c != '&' && c != '<' && c != '>' && c != '"' && c != '\'' ==> xml_entity(c) == seq![c],
{
}

/// A text is escaped character by character.
pub proof fn texts_are_escaped_character_by_character(s: Seq<char>)
    ensures
        xml_escaped(s) == s.map_values(|c: char| xml_entity(c)).flatten(),
        escaped_markup(s) == s.map_values(|c: char| markup_entity(c)).flatten(),
    decreases s.len(),
{
    lemma_flat_end(s, |c: char| xml_entity(c));
    lemma_flat_end(s, |c: char| markup_entity(c));
    if s.len() > 0 {
        texts_are_escaped_character_by_character(s.drop_last());
    }
}

} // verus!
