//! Escaping of the characters that carry markup.

use vstd::prelude::*;
use vstd::seq_lib::lemma_flatten_concat;

verus! {

/// Whether `c` is one of the four characters that are escaped.
pub open spec fn special(c: char) -> bool {
    c == '<' || c == '>' || c == '"' || c == '\''
}

/// What stands for `c` in sanitized text: its entity if `c` is special,
/// else `c` itself.
pub open spec fn escape_char(c: char) -> Seq<char> {
    if c == '<' {
        "&lt;"@
    } else if c == '>' {
        "&gt;"@
    } else if c == '"' {
        "&quot;"@
    } else if c == '\'' {
        "&#39;"@
    } else {
        seq![c]
    }
}

/// `escape_char` as a value.
pub open spec fn escaper() -> spec_fn(char) -> Seq<char> {
    |c: char| escape_char(c)
}

/// `s` with each character replaced by what stands for it.
pub open spec fn sanitized(s: Seq<char>) -> Seq<char> {
    s.flat_map(escaper())
}

/// What stands for `c` when `target` is replaced by `with`.
pub open spec fn replacer(target: char, with: Seq<char>) -> spec_fn(char) -> Seq<char> {
    |c: char|
        if c == target {
            with
        } else {
            seq![c]
        }
}

/// `s` with each `target` replaced by `with`.
pub open spec fn replaced(s: Seq<char>, target: char, with: Seq<char>) -> Seq<char> {
    s.flat_map(replacer(target, with))
}

/// Mapping two texts joined gives what mapping the first gives, and then
/// what mapping the second gives.
proof fn lemma_flat_map_append(a: Seq<char>, b: Seq<char>, f: spec_fn(char) -> Seq<char>)
    ensures
        (a + b).flat_map(f) == a.flat_map(f) + b.flat_map(f),
{
    assert((a + b).map_values(f) =~= a.map_values(f) + b.map_values(f));
    lemma_flatten_concat(a.map_values(f), b.map_values(f));
}

/// A replacement leaves a text without the target as it is.
proof fn lemma_replaced_without_target(s: Seq<char>, target: char, with: Seq<char>)
    requires
        forall|i: int| 0 <= i < s.len() ==> #[trigger] s[i] != target,
    ensures
        replaced(s, target, with) == s,
    decreases s.len(),
{
    if s.len() == 0 {
        assert(replaced(s, target, with) =~= s);
    } else {
        lemma_replaced_without_target(s.drop_last(), target, with);
        s.drop_last().lemma_flat_map_push(replacer(target, with), s.last());
        assert(s.drop_last().push(s.last()) =~= s);
        assert(replaced(s, target, with) =~= s);
    }
}

/// The four replacements, made one after another, of what stands for `c`
/// after the first of them.
proof fn lemma_replacements_of_one(c: char)
    ensures
        replaced(
            replaced(replaced(replaced(seq![c], '<', "&lt;"@), '>', "&gt;"@), '"', "&quot;"@),
            '\'',
            "&#39;"@,
        ) == escape_char(c),
{
    reveal_strlit("&lt;");
    reveal_strlit("&gt;");
    reveal_strlit("&quot;");
    reveal_strlit("&#39;");
    let lt = replaced(seq![c], '<', "&lt;"@);
    let gt = replaced(lt, '>', "&gt;"@);
    let quot = replaced(gt, '"', "&quot;"@);
    seq![c].lemma_flat_map_singleton(replacer('<', "&lt;"@));
    if c == '<' {
        lemma_replaced_without_target(lt, '>', "&gt;"@);
        lemma_replaced_without_target(gt, '"', "&quot;"@);
        lemma_replaced_without_target(quot, '\'', "&#39;"@);
    } else {
        assert(lt == seq![c]);
        seq![c].lemma_flat_map_singleton(replacer('>', "&gt;"@));
        if c == '>' {
            lemma_replaced_without_target(gt, '"', "&quot;"@);
            lemma_replaced_without_target(quot, '\'', "&#39;"@);
        } else {
            assert(gt == seq![c]);
            seq![c].lemma_flat_map_singleton(replacer('"', "&quot;"@));
            if c == '"' {
                lemma_replaced_without_target(quot, '\'', "&#39;"@);
            } else {
                assert(quot == seq![c]);
                seq![c].lemma_flat_map_singleton(replacer('\'', "&#39;"@));
            }
        }
    }
}

/// Sanitizing in one pass gives what four replacements give when they are
/// made one after another over the whole text: first of `<`, then of `>`,
/// then of `"`, then of `'`.
pub proof fn lemma_sanitized_is_four_replacements(s: Seq<char>)
    ensures
        sanitized(s) == replaced(
            replaced(replaced(replaced(s, '<', "&lt;"@), '>', "&gt;"@), '"', "&quot;"@),
            '\'',
            "&#39;"@,
        ),
    decreases s.len(),
{
    let empty = Seq::<char>::empty();
    if s.len() == 0 {
        assert(sanitized(s) =~= empty);
        assert(replaced(s, '<', "&lt;"@) =~= empty);
        assert(replaced(empty, '>', "&gt;"@) =~= empty);
        assert(replaced(empty, '"', "&quot;"@) =~= empty);
        assert(replaced(empty, '\'', "&#39;"@) =~= empty);
    } else {
        let front = s.drop_last();
        let back = seq![s.last()];
        assert(front + back =~= s);
        lemma_sanitized_is_four_replacements(front);
        lemma_replacements_of_one(s.last());
        front.lemma_flat_map_push(escaper(), s.last());
        assert(front.push(s.last()) =~= s);
        lemma_flat_map_append(front, back, replacer('<', "&lt;"@));
        let front_lt = replaced(front, '<', "&lt;"@);
        let back_lt = replaced(back, '<', "&lt;"@);
        lemma_flat_map_append(front_lt, back_lt, replacer('>', "&gt;"@));
        let front_gt = replaced(front_lt, '>', "&gt;"@);
        let back_gt = replaced(back_lt, '>', "&gt;"@);
        lemma_flat_map_append(front_gt, back_gt, replacer('"', "&quot;"@));
        let front_quot = replaced(front_gt, '"', "&quot;"@);
        let back_quot = replaced(back_gt, '"', "&quot;"@);
        lemma_flat_map_append(front_quot, back_quot, replacer('\'', "&#39;"@));
    }
}

/// No special character is left in sanitized text.
pub proof fn lemma_sanitized_has_no_special(s: Seq<char>)
    ensures
        forall|i: int| 0 <= i < sanitized(s).len() ==> !special(#[trigger] sanitized(s)[i]),
    decreases s.len(),
{
    reveal_strlit("&lt;");
    reveal_strlit("&gt;");
    reveal_strlit("&quot;");
    reveal_strlit("&#39;");
    if s.len() == 0 {
        assert(sanitized(s) =~= Seq::<char>::empty());
    } else {
        lemma_sanitized_has_no_special(s.drop_last());
        s.drop_last().lemma_flat_map_push(escaper(), s.last());
        assert(s.drop_last().push(s.last()) =~= s);
        assert(sanitized(s) =~= sanitized(s.drop_last()) + escape_char(s.last()));
    }
}

/// A text without special characters is its own sanitized text.
pub proof fn lemma_sanitized_keeps_plain_text(s: Seq<char>)
    requires
        forall|i: int| 0 <= i < s.len() ==> !special(#[trigger] s[i]),
    ensures
        sanitized(s) == s,
    decreases s.len(),
{
    if s.len() == 0 {
        assert(sanitized(s) =~= s);
    } else {
        lemma_sanitized_keeps_plain_text(s.drop_last());
        s.drop_last().lemma_flat_map_push(escaper(), s.last());
        assert(s.drop_last().push(s.last()) =~= s);
        assert(sanitized(s) =~= s);
    }
}

/// Replaces `<`, `>`, `"` and `'` by `&lt;`, `&gt;`, `&quot;` and `&#39;`,
/// and keeps every other character.
pub fn sanitize_input(input: &str) -> (clean: String)
    ensures
        clean@ == sanitized(input@),
        forall|i: int| 0 <= i < clean@.len() ==> !special(#[trigger] clean@[i]),
{
    let mut clean = String::new();
    let source = input.chars();
    assert(input@.take(0) =~= Seq::<char>::empty());
    for c in it: source
        invariant
            it.seq() == input@,
            clean@ == sanitized(it.seq().take(it.index() as int)),
    {
        proof {
            input@.lemma_flat_map_take_append(escaper(), it.index() as int);
        }
        if c == '<' {
            clean.append("&lt;");
        } else if c == '>' {
            clean.append("&gt;");
        } else if c == '"' {
            clean.append("&quot;");
        } else if c == '\'' {
            clean.append("&#39;");
        } else {
            clean.push(c);
        }
    }
    proof {
        assert(input@.take(input@.len() as int) =~= input@);
        lemma_sanitized_has_no_special(input@);
    }
    clean
}

} // verus!
