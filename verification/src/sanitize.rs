//! Serbian Cyrillic → Serbian Latin transliteration.
use vstd::prelude::*;

use crate::text::push_char;

verus! {

/// The Latin text for one character: the official Serbian Cyrillic–Latin
/// correspondence for the Serbian Cyrillic letters, the character itself for
/// everything else.
pub open spec fn latin(c: char) -> Seq<char> {
    match c {
        'А' => seq!['A'],
        'Б' => seq!['B'],
        'В' => seq!['V'],
        'Г' => seq!['G'],
        'Д' => seq!['D'],
        'Ђ' => seq!['Đ'],
        'Е' => seq!['E'],
        'Ж' => seq!['Ž'],
        'З' => seq!['Z'],
        'И' => seq!['I'],
        'Ј' => seq!['J'],
        'К' => seq!['K'],
        'Л' => seq!['L'],
        'Љ' => seq!['L', 'j'],
        'М' => seq!['M'],
        'Н' => seq!['N'],
        'Њ' => seq!['N', 'j'],
        'О' => seq!['O'],
        'П' => seq!['P'],
        'Р' => seq!['R'],
        'С' => seq!['S'],
        'Т' => seq!['T'],
        'Ћ' => seq!['Ć'],
        'У' => seq!['U'],
        'Ф' => seq!['F'],
        'Х' => seq!['H'],
        'Ц' => seq!['C'],
        'Ч' => seq!['Č'],
        'Џ' => seq!['D', 'ž'],
        'Ш' => seq!['Š'],
        'а' => seq!['a'],
        'б' => seq!['b'],
        'в' => seq!['v'],
        'г' => seq!['g'],
        'д' => seq!['d'],
        'ђ' => seq!['đ'],
        'е' => seq!['e'],
        'ж' => seq!['ž'],
        'з' => seq!['z'],
        'и' => seq!['i'],
        'ј' => seq!['j'],
        'к' => seq!['k'],
        'л' => seq!['l'],
        'љ' => seq!['l', 'j'],
        'м' => seq!['m'],
        'н' => seq!['n'],
        'њ' => seq!['n', 'j'],
        'о' => seq!['o'],
        'п' => seq!['p'],
        'р' => seq!['r'],
        'с' => seq!['s'],
        'т' => seq!['t'],
        'ћ' => seq!['ć'],
        'у' => seq!['u'],
        'ф' => seq!['f'],
        'х' => seq!['h'],
        'ц' => seq!['c'],
        'ч' => seq!['č'],
        'џ' => seq!['d', 'ž'],
        'ш' => seq!['š'],
        _ => seq![c],
    }
}

/// Whether `c` is one of the Serbian Cyrillic letters the table rewrites.
pub open spec fn is_serbian_cyrillic(c: char) -> bool {
    latin(c) != seq![c]
}

/// The transliteration of `s`: each character replaced by its Latin text.
pub open spec fn transliterate(s: Seq<char>) -> Seq<char>
    decreases s.len(),
{
    if s.len() == 0 {
        seq![]
    } else {
        transliterate(s.drop_last()) + latin(s.last())
    }
}

/// Transliterate Serbian Cyrillic characters to their Serbian Latin
/// equivalents. Non-Cyrillic characters are passed through unchanged; Љ, Њ
/// and Џ yield two Latin characters, so the output may be longer than the input.
pub fn cyrillic_to_latin(input: &str) -> (out: String)
    ensures
        out@ == transliterate(input@),
{
    let mut out = String::new();
    for ch in it: input.chars()
        invariant
            it.seq() == input@,
            out@ == transliterate(input@.take(it.index() as int)),
    {
        proof {
            let t = input@.take(it.index() as int + 1);
            assert(t.drop_last() == input@.take(it.index() as int));
            assert(t.last() == ch);
        }
        match ch {
            'А' => push_char(&mut out, 'A'),
            'Б' => push_char(&mut out, 'B'),
            'В' => push_char(&mut out, 'V'),
            'Г' => push_char(&mut out, 'G'),
            'Д' => push_char(&mut out, 'D'),
            'Ђ' => push_char(&mut out, 'Đ'),
            'Е' => push_char(&mut out, 'E'),
            'Ж' => push_char(&mut out, 'Ž'),
            'З' => push_char(&mut out, 'Z'),
            'И' => push_char(&mut out, 'I'),
            'Ј' => push_char(&mut out, 'J'),
            'К' => push_char(&mut out, 'K'),
            'Л' => push_char(&mut out, 'L'),
            'Љ' => {
                push_char(&mut out, 'L');
                push_char(&mut out, 'j');
            },
            'М' => push_char(&mut out, 'M'),
            'Н' => push_char(&mut out, 'N'),
            'Њ' => {
                push_char(&mut out, 'N');
                push_char(&mut out, 'j');
            },
            'О' => push_char(&mut out, 'O'),
            'П' => push_char(&mut out, 'P'),
            'Р' => push_char(&mut out, 'R'),
            'С' => push_char(&mut out, 'S'),
            'Т' => push_char(&mut out, 'T'),
            'Ћ' => push_char(&mut out, 'Ć'),
            'У' => push_char(&mut out, 'U'),
            'Ф' => push_char(&mut out, 'F'),
            'Х' => push_char(&mut out, 'H'),
            'Ц' => push_char(&mut out, 'C'),
            'Ч' => push_char(&mut out, 'Č'),
            'Џ' => {
                push_char(&mut out, 'D');
                push_char(&mut out, 'ž');
            },
            'Ш' => push_char(&mut out, 'Š'),
            'а' => push_char(&mut out, 'a'),
            'б' => push_char(&mut out, 'b'),
            'в' => push_char(&mut out, 'v'),
            'г' => push_char(&mut out, 'g'),
            'д' => push_char(&mut out, 'd'),
            'ђ' => push_char(&mut out, 'đ'),
            'е' => push_char(&mut out, 'e'),
            'ж' => push_char(&mut out, 'ž'),
            'з' => push_char(&mut out, 'z'),
            'и' => push_char(&mut out, 'i'),
            'ј' => push_char(&mut out, 'j'),
            'к' => push_char(&mut out, 'k'),
            'л' => push_char(&mut out, 'l'),
            'љ' => {
                push_char(&mut out, 'l');
                push_char(&mut out, 'j');
            },
            'м' => push_char(&mut out, 'm'),
            'н' => push_char(&mut out, 'n'),
            'њ' => {
                push_char(&mut out, 'n');
                push_char(&mut out, 'j');
            },
            'о' => push_char(&mut out, 'o'),
            'п' => push_char(&mut out, 'p'),
            'р' => push_char(&mut out, 'r'),
            'с' => push_char(&mut out, 's'),
            'т' => push_char(&mut out, 't'),
            'ћ' => push_char(&mut out, 'ć'),
            'у' => push_char(&mut out, 'u'),
            'ф' => push_char(&mut out, 'f'),
            'х' => push_char(&mut out, 'h'),
            'ц' => push_char(&mut out, 'c'),
            'ч' => push_char(&mut out, 'č'),
            'џ' => {
                push_char(&mut out, 'd');
                push_char(&mut out, 'ž');
            },
            'ш' => push_char(&mut out, 'š'),
            other => push_char(&mut out, other),
        }
    }
    proof {
        assert(input@.take(input@.len() as int) == input@);
    }
    out
}

// ── Laws ──────────────────────────────────────────────────────────────────────

/// Every character the table produces is one the table leaves unchanged.
proof fn lemma_latin_output_fixed(c: char)
    ensures
        forall|k: int| 0 <= k < latin(c).len() ==> latin(#[trigger] latin(c)[k]) == seq![latin(c)[k]],
{
}

/// Transliteration distributes over concatenation.
pub proof fn lemma_transliterate_concat(a: Seq<char>, b: Seq<char>)
    ensures
        transliterate(a + b) == transliterate(a) + transliterate(b),
    decreases b.len(),
{
    if b.len() == 0 {
        assert(a + b == a);
    } else {
        assert((a + b).drop_last() == a + b.drop_last());
        lemma_transliterate_concat(a, b.drop_last());
    }
}

/// A text made only of characters the table leaves unchanged is its own
/// transliteration.
proof fn lemma_transliterate_fixed(s: Seq<char>)
    requires
        forall|k: int| 0 <= k < s.len() ==> latin(#[trigger] s[k]) == seq![s[k]],
    ensures
        transliterate(s) == s,
    decreases s.len(),
{
    if s.len() > 0 {
        assert forall|k: int| 0 <= k < s.len() - 1 implies latin(#[trigger] s.drop_last()[k])
            == seq![s.drop_last()[k]] by {
            assert(s.drop_last()[k] == s[k]);
        }
        lemma_transliterate_fixed(s.drop_last());
        assert(latin(s[s.len() - 1]) == seq![s.last()]);
        assert(s.drop_last().push(s.last()) == s);
    }
}

/// The output of the transliteration holds only characters it leaves unchanged.
proof fn lemma_transliterate_output_fixed(s: Seq<char>)
    ensures
        forall|k: int| 0 <= k < transliterate(s).len() ==> latin(#[trigger] transliterate(s)[k])
            == seq![transliterate(s)[k]],
    decreases s.len(),
{
    if s.len() > 0 {
        lemma_transliterate_output_fixed(s.drop_last());
        lemma_latin_output_fixed(s.last());
        let a = transliterate(s.drop_last());
        let b = latin(s.last());
        assert forall|k: int| 0 <= k < (a + b).len() implies latin(#[trigger] (a + b)[k]) == seq![(a
            + b)[k]] by {
            if k < a.len() {
                assert((a + b)[k] == a[k]);
            } else {
                assert((a + b)[k] == b[k - a.len()]);
            }
        }
    }
}

/// Transliteration is idempotent: Latin output passes through unchanged a
/// second time.
pub proof fn lemma_transliterate_idempotent(s: Seq<char>)
    ensures
        transliterate(transliterate(s)) == transliterate(s),
{
    lemma_transliterate_output_fixed(s);
    lemma_transliterate_fixed(transliterate(s));
}

/// Text with no Serbian Cyrillic letter passes through unchanged.
pub proof fn lemma_transliterate_non_cyrillic(s: Seq<char>)
    requires
        forall|k: int| 0 <= k < s.len() ==> !is_serbian_cyrillic(#[trigger] s[k]),
    ensures
        transliterate(s) == s,
{
    lemma_transliterate_fixed(s);
}

/// The output is never shorter than the input.
pub proof fn lemma_transliterate_len(s: Seq<char>)
    ensures
        transliterate(s).len() >= s.len(),
    decreases s.len(),
{
    if s.len() > 0 {
        lemma_transliterate_len(s.drop_last());
    }
}

} // verus!
