//! Identifiers: connection ids, the decimal names under which connections
//! write, and the pronounceable names that seed new replicas.

use vstd::prelude::*;
use vstd::string::StringExecFns;
use crate::crdt::root_name;

verus! {

/// The decimal digit for `d`.
pub open spec fn digit_char(d: nat) -> char {
    if d == 0 {
        '0'
    } else if d == 1 {
        '1'
    } else if d == 2 {
        '2'
    } else if d == 3 {
        '3'
    } else if d == 4 {
        '4'
    } else if d == 5 {
        '5'
    } else if d == 6 {
        '6'
    } else if d == 7 {
        '7'
    } else if d == 8 {
        '8'
    } else {
        '9'
    }
}

/// `n` written in decimal, without leading zeros.
pub open spec fn decimal(n: nat) -> Seq<char>
    decreases n,
{
    if n < 10 {
        seq![digit_char(n)]
    } else {
        decimal(n / 10).push(digit_char(n % 10))
    }
}

/// The consonant that opens syllable `i / 5`.
pub open spec fn consonant(i: nat) -> char {
    if i == 0 {
        'b'
    } else if i == 1 {
        'd'
    } else if i == 2 {
        'f'
    } else if i == 3 {
        'g'
    } else if i == 4 {
        'k'
    } else if i == 5 {
        'l'
    } else if i == 6 {
        'm'
    } else if i == 7 {
        'n'
    } else if i == 8 {
        'p'
    } else if i == 9 {
        'r'
    } else if i == 10 {
        's'
    } else {
        't'
    }
}

/// The vowel that closes a syllable.
pub open spec fn vowel(i: nat) -> char {
    if i == 0 {
        'a'
    } else if i == 1 {
        'e'
    } else if i == 2 {
        'i'
    } else if i == 3 {
        'o'
    } else {
        'u'
    }
}

/// The number of syllables: twelve consonants, each with five vowels.
pub const SYLLABLES: u64 = 60;

/// Syllable `d`: a consonant and a vowel.
pub open spec fn syllable(d: nat) -> Seq<char> {
    seq![consonant(d / 5), vowel(d % 5)]
}

/// The label for seed `n`: its digits to base sixty, each read as a syllable.
pub open spec fn pronounceable(n: nat) -> Seq<char>
    decreases n,
{
    if n < 60 {
        syllable(n)
    } else {
        pronounceable(n / 60) + syllable(n % 60)
    }
}

/// A decimal number starts with a digit.
pub proof fn lemma_decimal_head(n: nat)
    ensures
        decimal(n).len() >= 1,
        '0' <= decimal(n)[0] <= '9',
    decreases n,
{
    if n >= 10 {
        lemma_decimal_head(n / 10);
    }
}

/// A label starts with a lower-case consonant.
pub proof fn lemma_pronounceable_head(n: nat)
    ensures
        pronounceable(n).len() >= 2,
        'b' <= pronounceable(n)[0] <= 't',
    decreases n,
{
    if n >= 60 {
        lemma_pronounceable_head(n / 60);
    }
}

/// No decimal number and no label is the name that the CRDT reserves.
pub proof fn lemma_never_root(n: nat)
    ensures
        decimal(n) != root_name(),
        pronounceable(n) != root_name(),
{
    reveal_strlit("ROOT");
    lemma_decimal_head(n);
    lemma_pronounceable_head(n);
    assert(root_name()[0] == 'R');
}

fn digit_str(d: u64) -> (s: &'static str)
    requires
        d < 10,
    ensures
        s@ == seq![digit_char(d as nat)],
{
    proof {
        reveal_strlit("0");
        reveal_strlit("1");
        reveal_strlit("2");
        reveal_strlit("3");
        reveal_strlit("4");
        reveal_strlit("5");
        reveal_strlit("6");
        reveal_strlit("7");
        reveal_strlit("8");
        reveal_strlit("9");
    }
    let s = if d == 0 {
        "0"
    } else if d == 1 {
        "1"
    } else if d == 2 {
        "2"
    } else if d == 3 {
        "3"
    } else if d == 4 {
        "4"
    } else if d == 5 {
        "5"
    } else if d == 6 {
        "6"
    } else if d == 7 {
        "7"
    } else if d == 8 {
        "8"
    } else {
        "9"
    };
    assert(s@ =~= seq![digit_char(d as nat)]);
    s
}

fn consonant_str(i: u64) -> (s: &'static str)
    requires
        i < 12,
    ensures
        s@ == seq![consonant(i as nat)],
{
    proof {
        reveal_strlit("b");
        reveal_strlit("d");
        reveal_strlit("f");
        reveal_strlit("g");
        reveal_strlit("k");
        reveal_strlit("l");
        reveal_strlit("m");
        reveal_strlit("n");
        reveal_strlit("p");
        reveal_strlit("r");
        reveal_strlit("s");
        reveal_strlit("t");
    }
    let s = if i == 0 {
        "b"
    } else if i == 1 {
        "d"
    } else if i == 2 {
        "f"
    } else if i == 3 {
        "g"
    } else if i == 4 {
        "k"
    } else if i == 5 {
        "l"
    } else if i == 6 {
        "m"
    } else if i == 7 {
        "n"
    } else if i == 8 {
        "p"
    } else if i == 9 {
        "r"
    } else if i == 10 {
        "s"
    } else {
        "t"
    };
    assert(s@ =~= seq![consonant(i as nat)]);
    s
}

fn vowel_str(i: u64) -> (s: &'static str)
    requires
        i < 5,
    ensures
        s@ == seq![vowel(i as nat)],
{
    proof {
        reveal_strlit("a");
        reveal_strlit("e");
        reveal_strlit("i");
        reveal_strlit("o");
        reveal_strlit("u");
    }
    let s = if i == 0 {
        "a"
    } else if i == 1 {
        "e"
    } else if i == 2 {
        "i"
    } else if i == 3 {
        "o"
    } else {
        "u"
    };
    assert(s@ =~= seq![vowel(i as nat)]);
    s
}

/// Writes `n` in decimal.
pub fn to_decimal(n: u64) -> (s: String)
    ensures
        s@ == decimal(n as nat),
    decreases n,
{
    if n < 10 {
        String::from_str(digit_str(n))
    } else {
        let mut s = to_decimal(n / 10);
        s.append(digit_str(n % 10));
        assert(s@ =~= decimal(n as nat));
        s
    }
}

/// The pronounceable label for seed `n`.
pub fn random_name(n: u64) -> (s: String)
    ensures
        s@ == pronounceable(n as nat),
    decreases n,
{
    let d = n % SYLLABLES;
    let mut s = if n < SYLLABLES {
        String::new()
    } else {
        random_name(n / SYLLABLES)
    };
    s.append(consonant_str(d / 5));
    s.append(vowel_str(d % 5));
    assert(s@ =~= pronounceable(n as nat));
    s
}

/// A counter that hands out connection ids: 1, 2, 3 and so on, and after the
/// largest id 1 again. It never hands out 0.
pub struct IdGenerator {
    next: u64,
}

impl IdGenerator {
    /// The id that the next call of `id_generator` returns.
    pub closed spec fn upcoming(&self) -> u64 {
        self.next
    }

    /// The upcoming id is not 0.
    pub closed spec fn wf(&self) -> bool {
        self.next != 0
    }

    /// The id that follows `id`.
    pub open spec fn successor(id: u64) -> u64 {
        if id == u64::MAX {
            1
        } else {
            (id + 1) as u64
        }
    }

    /// A generator that starts at 1.
    pub fn new() -> (g: IdGenerator)
        ensures
            g.wf(),
            g.upcoming() == 1,
    {
        IdGenerator { next: 1 }
    }

    /// Returns the upcoming id and moves on to its successor.
    pub fn id_generator(&mut self) -> (id: u64)
        requires
            old(self).wf(),
        ensures
            final(self).wf(),
            id == old(self).upcoming(),
            id != 0,
            final(self).upcoming() == Self::successor(id),
    {
        let id = self.next;
        self.next = if id == u64::MAX {
            1
        } else {
            id + 1
        };
        id
    }
}

} // verus!
