//! Dice kinds and the parsing of a dice expression such as `2D20`.

use vstd::prelude::*;

verus! {

/// The kinds of dice that can be rolled, named by their number of sides.
#[derive(Debug, Clone, Copy, PartialEq, Eq, Structural)]
pub enum TypeOfDice {
    D3,
    D4,
    D5,
    D6,
    D7,
    D8,
    D10,
    D12,
    D14,
    D16,
    D20,
    D24,
    D30,
    D50,
    D60,
    D100,
}

impl TypeOfDice {
    /// The number of sides of a die of this kind.
    pub open spec fn sides(self) -> u16 {
        match self {
            TypeOfDice::D3 => 3,
            TypeOfDice::D4 => 4,
            TypeOfDice::D5 => 5,
            TypeOfDice::D6 => 6,
            TypeOfDice::D7 => 7,
            TypeOfDice::D8 => 8,
            TypeOfDice::D10 => 10,
            TypeOfDice::D12 => 12,
            TypeOfDice::D14 => 14,
            TypeOfDice::D16 => 16,
            TypeOfDice::D20 => 20,
            TypeOfDice::D24 => 24,
            TypeOfDice::D30 => 30,
            TypeOfDice::D50 => 50,
            TypeOfDice::D60 => 60,
            TypeOfDice::D100 => 100,
        }
    }

    /// The kind of die with `n` sides, if such a die is supported.
    pub open spec fn from_sides(n: int) -> Option<TypeOfDice> {
        if n == 3 {
            Some(TypeOfDice::D3)
        } else if n == 4 {
            Some(TypeOfDice::D4)
        } else if n == 5 {
            Some(TypeOfDice::D5)
        } else if n == 6 {
            Some(TypeOfDice::D6)
        } else if n == 7 {
            Some(TypeOfDice::D7)
        } else if n == 8 {
            Some(TypeOfDice::D8)
        } else if n == 10 {
            Some(TypeOfDice::D10)
        } else if n == 12 {
            Some(TypeOfDice::D12)
        } else if n == 14 {
            Some(TypeOfDice::D14)
        } else if n == 16 {
            Some(TypeOfDice::D16)
        } else if n == 20 {
            Some(TypeOfDice::D20)
        } else if n == 24 {
            Some(TypeOfDice::D24)
        } else if n == 30 {
            Some(TypeOfDice::D30)
        } else if n == 50 {
            Some(TypeOfDice::D50)
        } else if n == 60 {
            Some(TypeOfDice::D60)
        } else if n == 100 {
            Some(TypeOfDice::D100)
        } else {
            None
        }
    }

    /// Converts a number of sides into the kind of die that has them;
    /// `None` when no supported die has `n` sides.
    pub fn from_u16(n: u16) -> (r: Option<Self>)
        ensures
            r == TypeOfDice::from_sides(n as int),
            r matches Some(d) ==> d.sides() == n,
    {
        match n {
            3 => Some(TypeOfDice::D3),
            4 => Some(TypeOfDice::D4),
            5 => Some(TypeOfDice::D5),
            6 => Some(TypeOfDice::D6),
            7 => Some(TypeOfDice::D7),
            8 => Some(TypeOfDice::D8),
            10 => Some(TypeOfDice::D10),
            12 => Some(TypeOfDice::D12),
            14 => Some(TypeOfDice::D14),
            16 => Some(TypeOfDice::D16),
            20 => Some(TypeOfDice::D20),
            24 => Some(TypeOfDice::D24),
            30 => Some(TypeOfDice::D30),
            50 => Some(TypeOfDice::D50),
            60 => Some(TypeOfDice::D60),
            100 => Some(TypeOfDice::D100),
            _ => None,
        }
    }

    /// The number of sides of this die.
    pub fn value(&self) -> (r: u16)
        ensures
            r == self.sides(),
    {
        match self {
            TypeOfDice::D3 => 3,
            TypeOfDice::D4 => 4,
            TypeOfDice::D5 => 5,
            TypeOfDice::D6 => 6,
            TypeOfDice::D7 => 7,
            TypeOfDice::D8 => 8,
            TypeOfDice::D10 => 10,
            TypeOfDice::D12 => 12,
            TypeOfDice::D14 => 14,
            TypeOfDice::D16 => 16,
            TypeOfDice::D20 => 20,
            TypeOfDice::D24 => 24,
            TypeOfDice::D30 => 30,
            TypeOfDice::D50 => 50,
            TypeOfDice::D60 => 60,
            TypeOfDice::D100 => 100,
        }
    }
}

/// Every die kind is found again from its number of sides, so no number
/// outside the supported set is the side count of a die.
pub proof fn lemma_sides_round_trip(d: TypeOfDice)
    ensures
        TypeOfDice::from_sides(d.sides() as int) == Some(d),
{
}


/// A request to roll `count` dice of kind `dice_type`.
#[derive(Debug)]
pub struct DiceRoll {
    /// The number of dice to roll.
    pub count: u16,
    /// The kind of dice to roll.
    pub dice_type: TypeOfDice,
}

impl DiceRoll {
    /// A request always asks for at least one die.
    pub open spec fn wf(&self) -> bool {
        self.count >= 1
    }
}

/// The request made when no usable expression is given: one six-sided die.
pub open spec fn default_roll() -> DiceRoll {
    DiceRoll { count: 1, dice_type: TypeOfDice::D6 }
}

pub open spec fn is_digit(c: char) -> bool {
    '0' <= c && c <= '9'
}

pub open spec fn all_digits(s: Seq<char>) -> bool {
    forall|i: int| 0 <= i < s.len() ==> is_digit(#[trigger] s[i])
}

/// Whether a character outside ASCII belongs to Unicode's decimal-number
/// class (`\p{Nd}`).
pub uninterp spec fn is_unicode_decimal_digit(c: char) -> bool;

/// The digits a dice expression may be written with: any Unicode decimal
/// digit, which within ASCII are exactly `0` to `9`.
pub open spec fn is_pattern_digit(c: char) -> bool {
    if (c as u32) < 128 {
        is_digit(c)
    } else {
        is_unicode_decimal_digit(c)
    }
}

pub open spec fn all_pattern_digits(s: Seq<char>) -> bool {
    forall|i: int| 0 <= i < s.len() ==> is_pattern_digit(#[trigger] s[i])
}

/// The decimal number written by a string of digits; zero for the empty string.
pub open spec fn digits_value(s: Seq<char>) -> nat
    decreases s.len(),
{
    if s.len() == 0 {
        0
    } else {
        digits_value(s.drop_last()) * 10 + (s.last() as nat - '0' as nat) as nat
    }
}

pub open spec fn is_separator(c: char) -> bool {
    c == 'D' || c == 'd'
}

/// The token reads `<digits>D<digits>`, the separator standing at `k`, with at
/// least one digit after it (the separator may be written in either case, and
/// the digits may be any Unicode decimal digits).
pub open spec fn splits_at(t: Seq<char>, k: int) -> bool {
    &&& 0 <= k
    &&& k + 1 < t.len()
    &&& is_separator(t[k])
    &&& all_pattern_digits(t.subrange(0, k))
    &&& all_pattern_digits(t.subrange(k + 1, t.len() as int))
}

pub open spec fn is_dice_expression(t: Seq<char>) -> bool {
    exists|k: int| splits_at(t, k)
}

/// The number of dice a leading digit group asks for: its value when it is
/// written in ASCII digits and is a positive `u16`, otherwise one.
pub open spec fn count_of(g: Seq<char>) -> u16 {
    let v = digits_value(g);
    if all_digits(g) && 1 <= v && v <= 65535 {
        v as u16
    } else {
        1
    }
}

/// The die kind a trailing digit group names, six-sided when it names none or
/// is not written in ASCII digits.
pub open spec fn kind_of(g: Seq<char>) -> TypeOfDice {
    if !all_digits(g) {
        TypeOfDice::D6
    } else {
        match TypeOfDice::from_sides(digits_value(g) as int) {
            Some(d) => d,
            None => TypeOfDice::D6,
        }
    }
}

/// The request written by a token: count and kind come from the two digit
/// groups of a dice expression; anything else is the default request.
pub open spec fn roll_of_token(t: Seq<char>) -> DiceRoll {
    if is_dice_expression(t) {
        let k = choose|k: int| splits_at(t, k);
        DiceRoll {
            count: count_of(t.subrange(0, k)),
            dice_type: kind_of(t.subrange(k + 1, t.len() as int)),
        }
    } else {
        default_roll()
    }
}

/// The request written by a command line: its first argument after the
/// program name, or the default request when there is none.
pub open spec fn roll_of_args(args: Seq<String>) -> DiceRoll {
    if args.len() > 1 {
        roll_of_token(args[1]@)
    } else {
        default_roll()
    }
}

/// A dice expression has only one place for its separator.
proof fn lemma_split_unique(t: Seq<char>, a: int, b: int)
    requires
        splits_at(t, a),
        splits_at(t, b),
    ensures
        a == b,
{
    if a < b {
        assert(t.subrange(0, b)[a] == t[a]);
    } else if b < a {
        assert(t.subrange(0, a)[b] == t[b]);
    }
}

spec fn capped(v: nat) -> nat {
    if v > 65536 {
        65536
    } else {
        v
    }
}

/// Relies on regex::Regex::new and regex::Regex::is_match: the pattern `^\d$`
/// matches a one-character string exactly when its character is in Unicode's
/// decimal-number class.
#[verifier::external_body]
fn is_non_ascii_digit(c: char) -> (r: bool)
    requires
        c as u32 >= 128,
    ensures
        r == is_unicode_decimal_digit(c),
{
    let mut buf = [0u8; 4];
    regex::Regex::new(r"^\d$").unwrap().is_match(c.encode_utf8(&mut buf))
}

fn is_digit_char(c: char) -> (r: bool)
    ensures
        r == is_digit(c),
{
    '0' <= c && c <= '9'
}

fn is_pattern_digit_char(c: char) -> (r: bool)
    ensures
        r == is_pattern_digit(c),
{
    if (c as u32) < 128 {
        is_digit_char(c)
    } else {
        is_non_ascii_digit(c)
    }
}

/// Whether the characters of `t` from `from` to `to` are all ASCII digits.
fn all_ascii_digits(t: &str, from: usize, to: usize) -> (r: bool)
    requires
        from <= to <= t@.len(),
    ensures
        r == all_digits(t@.subrange(from as int, to as int)),
{
    let mut i: usize = from;
    while i < to
        invariant
            from <= i <= to <= t@.len(),
            all_digits(t@.subrange(from as int, i as int)),
        decreases to - i,
    {
        if !is_digit_char(t.get_char(i)) {
            assert(t@.subrange(from as int, to as int)[i - from] == t@[i as int]);
            return false;
        }
        assert(t@.subrange(from as int, i as int + 1) =~= t@.subrange(from as int, i as int).push(
            t@[i as int],
        ));
        i = i + 1;
    }
    assert(t@.subrange(from as int, i as int) =~= t@.subrange(from as int, to as int));
    true
}

/// Reads the digits of `t` from `from` to `to`, stopping the count at 65536 so
/// that it always fits.
fn digits_value_capped(t: &str, from: usize, to: usize) -> (r: u32)
    requires
        from <= to <= t@.len(),
        all_digits(t@.subrange(from as int, to as int)),
    ensures
        r == capped(digits_value(t@.subrange(from as int, to as int))),
{
    let mut acc: u32 = 0;
    let mut i: usize = from;
    while i < to
        invariant
            from <= i <= to <= t@.len(),
            all_digits(t@.subrange(from as int, to as int)),
            acc == capped(digits_value(t@.subrange(from as int, i as int))),
        decreases to - i,
    {
        let c = t.get_char(i);
        proof {
            let g = t@.subrange(from as int, i as int + 1);
            assert(g.drop_last() =~= t@.subrange(from as int, i as int));
            assert(g.last() == c);
            assert(t@.subrange(from as int, to as int)[i - from] == c);
            let v = digits_value(t@.subrange(from as int, i as int));
            assert(v > 65536 ==> v * 10 > 65536) by (nonlinear_arith);
        }
        let d: u32 = (c as u32) - ('0' as u32);
        if acc < 65536 {
            acc = acc * 10 + d;
            if acc > 65536 {
                acc = 65536;
            }
        }
        i = i + 1;
    }
    proof {
        assert(t@.subrange(from as int, i as int) =~= t@.subrange(from as int, to as int));
    }
    acc
}

/// Parses one token such as `2D20`, `d8` or `3d6` into a roll request. A token
/// that is not a dice expression gives one six-sided die; a dice expression
/// keeps its count even where its side count names no supported die.
pub fn parse_dice_token(t: &str) -> (r: DiceRoll)
    ensures
        r == roll_of_token(t@),
        r.wf(),
{
    let n = t.unicode_len();
    let mut k: usize = 0;
    while k < n && is_pattern_digit_char(t.get_char(k))
        invariant
            k <= n == t@.len(),
            all_pattern_digits(t@.subrange(0, k as int)),
        decreases n - k,
    {
        proof {
            assert(t@.subrange(0, k as int + 1) =~= t@.subrange(0, k as int).push(t@[k as int]));
        }
        k = k + 1;
    }
    if k >= n || k + 1 >= n || !(t.get_char(k) == 'D' || t.get_char(k) == 'd') {
        proof {
            assert forall|j: int| !splits_at(t@, j) by {
                if splits_at(t@, j) {
                    if j < k {
                        assert(t@.subrange(0, k as int)[j] == t@[j]);
                    } else if j > k {
                        assert(t@.subrange(0, j)[k as int] == t@[k as int]);
                    }
                }
            }
        }
        return DiceRoll { count: 1, dice_type: TypeOfDice::D6 };
    }
    let mut j: usize = k + 1;
    while j < n
        invariant
            k + 1 <= j <= n == t@.len(),
            is_separator(t@[k as int]),
            all_pattern_digits(t@.subrange(0, k as int)),
            all_pattern_digits(t@.subrange(k + 1, j as int)),
        decreases n - j,
    {
        if !is_pattern_digit_char(t.get_char(j)) {
            proof {
                assert forall|m: int| !splits_at(t@, m) by {
                    if splits_at(t@, m) {
                        if m < k {
                            assert(t@.subrange(0, k as int)[m] == t@[m]);
                        } else if m > k {
                            assert(t@.subrange(0, m)[k as int] == t@[k as int]);
                        } else {
                            assert(t@.subrange(k + 1, n as int)[j - k - 1] == t@[j as int]);
                        }
                    }
                }
            }
            return DiceRoll { count: 1, dice_type: TypeOfDice::D6 };
        }
        proof {
            assert(t@.subrange(k + 1, j as int + 1) =~= t@.subrange(k + 1, j as int).push(t@[j as int]));
        }
        j = j + 1;
    }
    proof {
        assert(splits_at(t@, k as int));
        let c = choose|m: int| splits_at(t@, m);
        lemma_split_unique(t@, c, k as int);
    }
    let count: u16 = if all_ascii_digits(t, 0, k) {
        let count_digits = digits_value_capped(t, 0, k);
        if 1 <= count_digits && count_digits <= 65535 {
            count_digits as u16
        } else {
            1
        }
    } else {
        1
    };
    let dice_type = if all_ascii_digits(t, k + 1, n) {
        let sides_digits = digits_value_capped(t, k + 1, n);
        if sides_digits <= 65535 {
            match TypeOfDice::from_u16(sides_digits as u16) {
                Some(d) => d,
                None => TypeOfDice::D6,
            }
        } else {
            TypeOfDice::D6
        }
    } else {
        TypeOfDice::D6
    };
    DiceRoll { count, dice_type }
}

/// Reads a command line (program name first) into a roll request: its first
/// argument is parsed as a dice expression, and with no argument the request
/// is one six-sided die.
pub fn parse_dice_arg(args: &Vec<String>) -> (r: DiceRoll)
    ensures
        r == roll_of_args(args@),
        r.wf(),
{
    if args.len() > 1 {
        parse_dice_token(args[1].as_str())
    } else {
        DiceRoll { count: 1, dice_type: TypeOfDice::D6 }
    }
}


/// Where `t` holds the separator at `p`, it is a dice expression exactly when
/// it splits there.
proof fn lemma_split_only_at(t: Seq<char>, p: int, k: int)
    requires
        0 <= p < t.len(),
        is_separator(t[p]),
        splits_at(t, k),
    ensures
        k == p,
{
    if k < p {
        assert(t.subrange(k + 1, t.len() as int)[p - k - 1] == t[p]);
    } else if p < k {
        assert(t.subrange(0, k)[p] == t[p]);
    }
}

/// The separator of a dice expression may be written `d` or `D`: the two
/// tokens give the same request.
pub proof fn lemma_separator_case_insensitive(pre: Seq<char>, post: Seq<char>)
    ensures
        roll_of_token(pre + seq!['d'] + post) == roll_of_token(pre + seq!['D'] + post),
{
    let lo = pre + seq!['d'] + post;
    let up = pre + seq!['D'] + post;
    let p = pre.len() as int;
    let n = lo.len() as int;
    assert(lo.subrange(0, p) =~= pre);
    assert(up.subrange(0, p) =~= pre);
    assert(lo.subrange(p + 1, n) =~= post);
    assert(up.subrange(p + 1, n) =~= post);
    assert(lo[p] == 'd');
    assert(up[p] == 'D');
    assert forall|k: int| splits_at(lo, k) implies k == p by {
        lemma_split_only_at(lo, p, k);
    }
    assert forall|k: int| splits_at(up, k) implies k == p by {
        lemma_split_only_at(up, p, k);
    }
    assert(splits_at(lo, p) <==> splits_at(up, p));
    if is_dice_expression(lo) {
        let k = choose|k: int| splits_at(lo, k);
        assert(k == p);
        assert(splits_at(up, p));
        let k2 = choose|k: int| splits_at(up, k);
        assert(k2 == p);
    } else {
        assert(!splits_at(up, p));
    }
}

/// Parsing depends on the text of the arguments alone: command lines that
/// read the same give the same request, whenever they are parsed.
pub proof fn lemma_parse_is_pure(a: Seq<String>, b: Seq<String>)
    requires
        a.len() == b.len(),
        forall|i: int| 0 <= i < a.len() ==> a[i]@ == b[i]@,
    ensures
        roll_of_args(a) == roll_of_args(b),
{
}

} // verus!
