//! What a command line asks for: a coin flip or a roll of dice.

use vstd::prelude::*;

verus! {

/// `c` is the lowercase ASCII letter `lower`, in either case.
pub open spec fn same_letter(c: char, lower: char) -> bool {
    c == lower || (c as u32) + 32 == lower as u32
}

/// `s` spells `word` (lowercase ASCII letters), ignoring ASCII case.
pub open spec fn spells(s: Seq<char>, word: Seq<char>) -> bool {
    s.len() == word.len() && forall|i: int| 0 <= i < s.len() ==> same_letter(#[trigger] s[i], word[i])
}

/// The argument asks for a coin flip: `f`, `flip` or `flipcoin`, in any case.
pub open spec fn is_flip_word(s: Seq<char>) -> bool {
    spells(s, seq!['f'])
        || spells(s, seq!['f', 'l', 'i', 'p'])
        || spells(s, seq!['f', 'l', 'i', 'p', 'c', 'o', 'i', 'n'])
}

fn spells_word(s: &str, word: &Vec<char>) -> (r: bool)
    requires
        forall|i: int| 0 <= i < word@.len() ==> 'a' <= #[trigger] word@[i] <= 'z',
    ensures
        r == spells(s@, word@),
{
    let n = s.unicode_len();
    if n != word.len() {
        return false;
    }
    let mut i: usize = 0;
    while i < n
        invariant
            i <= n == s@.len() == word@.len(),
            forall|j: int| 0 <= j < i ==> same_letter(#[trigger] s@[j], word@[j]),
        decreases n - i,
    {
        let c = s.get_char(i);
        let w = word[i];
        if !(c == w || (c as u32) + 32 == w as u32) {
            return false;
        }
        i = i + 1;
    }
    true
}

/// Whether the argument asks for a coin flip rather than a roll of dice.
pub fn is_flip_request(arg: &str) -> (r: bool)
    ensures
        r == is_flip_word(arg@),
{
    let f = vec!['f'];
    let flip = vec!['f', 'l', 'i', 'p'];
    let flipcoin = vec!['f', 'l', 'i', 'p', 'c', 'o', 'i', 'n'];
    assert(f@ =~= seq!['f']);
    assert(flip@ =~= seq!['f', 'l', 'i', 'p']);
    assert(flipcoin@ =~= seq!['f', 'l', 'i', 'p', 'c', 'o', 'i', 'n']);
    spells_word(arg, &f) || spells_word(arg, &flip) || spells_word(arg, &flipcoin)
}

} // verus!
