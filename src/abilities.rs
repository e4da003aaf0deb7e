use vstd::prelude::*;

use crate::error::YAPCCError;
use crate::text::{
    chars_of, digits_value, decimal, is_u8_literal, join, lacks, lemma_decimal, lemma_decimal_lacks,
    lemma_split_join, parse_u8, push_decimal, same_chars, split, split_chars,
};

verus! {

/// Bonuses to the six abilities of a character.
#[derive(Debug, Clone, Copy, PartialEq, Eq)]
pub struct AbilityScores {
    pub strength: u8,
    pub dexterity: u8,
    pub constitution: u8,
    pub intelligence: u8,
    pub wisdom: u8,
    pub charisma: u8,
}

/// The number of abilities.
pub const ABILITY_COUNT: usize = 6;

impl AbilityScores {
    /// The score of the ability at `i`, in the canonical order strength,
    /// dexterity, constitution, intelligence, wisdom, charisma.
    pub open spec fn score(self, i: int) -> u8 {
        if i == 0 {
            self.strength
        } else if i == 1 {
            self.dexterity
        } else if i == 2 {
            self.constitution
        } else if i == 3 {
            self.intelligence
        } else if i == 4 {
            self.wisdom
        } else {
            self.charisma
        }
    }

    /// Every field-wise sum of `self` and `o` fits in a score.
    pub open spec fn add_fits(self, o: AbilityScores) -> bool {
        forall|i: int| 0 <= i < 6 ==> #[trigger] self.score(i) + o.score(i) <= u8::MAX
    }

    /// The field-wise sum of `self` and `o`.
    pub open spec fn spec_add(self, o: AbilityScores) -> AbilityScores {
        AbilityScores {
            strength: (self.strength + o.strength) as u8,
            dexterity: (self.dexterity + o.dexterity) as u8,
            constitution: (self.constitution + o.constitution) as u8,
            intelligence: (self.intelligence + o.intelligence) as u8,
            wisdom: (self.wisdom + o.wisdom) as u8,
            charisma: (self.charisma + o.charisma) as u8,
        }
    }

    /// The scores with every ability at zero.
    pub open spec fn zero() -> AbilityScores {
        AbilityScores {
            strength: 0,
            dexterity: 0,
            constitution: 0,
            intelligence: 0,
            wisdom: 0,
            charisma: 0,
        }
    }

    /// The score of the ability at `i` (see `score`).
    pub fn get(&self, i: usize) -> (r: u8)
        requires
            i < ABILITY_COUNT,
        ensures
            r == self.score(i as int),
    {
        match i {
            0 => self.strength,
            1 => self.dexterity,
            2 => self.constitution,
            3 => self.intelligence,
            4 => self.wisdom,
            _ => self.charisma,
        }
    }

    /// Sets the score of the ability at `i` (see `score`) to `v`.
    pub fn set(&mut self, i: usize, v: u8)
        requires
            i < ABILITY_COUNT,
        ensures
            forall|j: int|
                0 <= j < 6 ==> #[trigger] final(self).score(j) == if j == i {
                    v
                } else {
                    old(self).score(j)
                },
    {
        match i {
            0 => self.strength = v,
            1 => self.dexterity = v,
            2 => self.constitution = v,
            3 => self.intelligence = v,
            4 => self.wisdom = v,
            _ => self.charisma = v,
        }
    }

    /// Whether every field-wise sum of `self` and `o` fits in a score, as
    /// `add` requires.
    pub fn fits_with(&self, o: &AbilityScores) -> (r: bool)
        ensures
            r == self.add_fits(*o),
    {
        let mut i: usize = 0;
        while i < ABILITY_COUNT
            invariant
                i <= ABILITY_COUNT,
                forall|j: int| 0 <= j < i ==> #[trigger] self.score(j) + o.score(j) <= u8::MAX,
            decreases ABILITY_COUNT - i,
        {
            if self.get(i) as u16 + o.get(i) as u16 > 255 {
                return false;
            }
            i = i + 1;
        }
        true
    }

    /// Field-wise sum, used to stack the bonuses of two layers.
    pub fn add(self, rhs: AbilityScores) -> (r: AbilityScores)
        requires
            self.add_fits(rhs),
        ensures
            r == self.spec_add(rhs),
            forall|i: int| 0 <= i < 6 ==> #[trigger] r.score(i) == self.score(i) + rhs.score(i),
    {
        assert(self.score(0) + rhs.score(0) <= u8::MAX);
        assert(self.score(1) + rhs.score(1) <= u8::MAX);
        assert(self.score(2) + rhs.score(2) <= u8::MAX);
        assert(self.score(3) + rhs.score(3) <= u8::MAX);
        assert(self.score(4) + rhs.score(4) <= u8::MAX);
        assert(self.score(5) + rhs.score(5) <= u8::MAX);
        AbilityScores {
            strength: self.strength + rhs.strength,
            dexterity: self.dexterity + rhs.dexterity,
            constitution: self.constitution + rhs.constitution,
            intelligence: self.intelligence + rhs.intelligence,
            wisdom: self.wisdom + rhs.wisdom,
            charisma: self.charisma + rhs.charisma,
        }
    }
}

// The ability-score token: entries `abbrev+value` joined by `;`.
/// The abbreviation of the ability at `i` in the token.
pub open spec fn abbrev(i: int) -> Seq<char> {
    if i == 0 {
        seq!['s', 't', 'r']
    } else if i == 1 {
        seq!['d', 'e', 'x']
    } else if i == 2 {
        seq!['c', 'o', 'n']
    } else if i == 3 {
        seq!['i', 'n', 't']
    } else if i == 4 {
        seq!['w', 'i', 's']
    } else {
        seq!['c', 'h', 'a']
    }
}

/// The entry that gives the ability at `i` the value `v`.
pub open spec fn entry(i: int, v: nat) -> Seq<char> {
    join(seq![abbrev(i), decimal(v)], '+')
}

/// The entries for the non-zero scores among the first `n` abilities, in
/// canonical order.
pub open spec fn entries_of(s: AbilityScores, n: int) -> Seq<Seq<char>>
    decreases n,
{
    if n <= 0 {
        Seq::empty()
    } else if s.score(n - 1) > 0 {
        entries_of(s, n - 1).push(entry(n - 1, s.score(n - 1) as nat))
    } else {
        entries_of(s, n - 1)
    }
}

/// The canonical token of `s`: its non-zero scores only.
pub open spec fn encoded(s: AbilityScores) -> Seq<char> {
    join(entries_of(s, 6), ';')
}

/// The name of a token entry: what stands before its first `+`.
pub open spec fn entry_name(e: Seq<char>) -> Seq<char> {
    split(e, '+')[0]
}

/// The last of `entries` named `key`, if any.
pub open spec fn last_entry_for(entries: Seq<Seq<char>>, key: Seq<char>) -> Option<Seq<char>>
    decreases entries.len(),
{
    if entries.len() == 0 {
        None
    } else if entry_name(entries.last()) == key {
        Some(entries.last())
    } else {
        last_entry_for(entries.drop_last(), key)
    }
}

/// The score that the entry `e` gives, or `None` where its value is missing
/// or not a decimal `u8`; the value is what stands between its first and its
/// second `+`.
pub open spec fn entry_value(e: Seq<char>) -> Option<u8> {
    let parts = split(e, '+');
    if parts.len() >= 2 && is_u8_literal(parts[1]) {
        Some(digits_value(parts[1]) as u8)
    } else {
        None
    }
}

/// The score of the ability at `i` that `entries` give: the last entry of
/// that name decides, zero where there is none, `None` where it is malformed.
pub open spec fn field_in(entries: Seq<Seq<char>>, i: int) -> Option<u8> {
    match last_entry_for(entries, abbrev(i)) {
        None => Some(0u8),
        Some(e) => entry_value(e),
    }
}

/// The score of the ability at `i` that the token `t` gives (see `field_in`).
pub open spec fn field_of(t: Seq<char>, i: int) -> Option<u8> {
    field_in(split(t, ';'), i)
}

/// No entry of `t` that decides a score is malformed.
pub open spec fn is_valid_token(t: Seq<char>) -> bool {
    forall|i: int| 0 <= i < 6 ==> (#[trigger] field_of(t, i)) is Some
}

/// The scores that the valid token `t` gives.
pub open spec fn decoded(t: Seq<char>) -> AbilityScores {
    AbilityScores {
        strength: field_of(t, 0)->0,
        dexterity: field_of(t, 1)->0,
        constitution: field_of(t, 2)->0,
        intelligence: field_of(t, 3)->0,
        wisdom: field_of(t, 4)->0,
        charisma: field_of(t, 5)->0,
    }
}

fn abbrev_str(i: usize) -> (r: &'static str)
    requires
        i < ABILITY_COUNT,
    ensures
        r@ == abbrev(i as int),
{
    proof {
        reveal_strlit("str");
        reveal_strlit("dex");
        reveal_strlit("con");
        reveal_strlit("int");
        reveal_strlit("wis");
        reveal_strlit("cha");
    }
    let r = match i {
        0 => "str",
        1 => "dex",
        2 => "con",
        3 => "int",
        4 => "wis",
        _ => "cha",
    };
    assert(r@ =~= abbrev(i as int));
    r
}

/// The score of the ability at `i` that `entries` give (see `field_in`).
fn field_from_entries(entries: &Vec<Vec<char>>, i: usize) -> (r: Option<u8>)
    requires
        i < ABILITY_COUNT,
    ensures
        r == field_in(entries@.map_values(|p: Vec<char>| p@), i as int),
{
    let ghost es = entries@.map_values(|p: Vec<char>| p@);
    let key = chars_of(abbrev_str(i));
    let mut j: usize = entries.len();
    assert(es.take(j as int) =~= es);
    while j > 0
        invariant
            j <= entries.len(),
            es == entries@.map_values(|p: Vec<char>| p@),
            key@ == abbrev(i as int),
            last_entry_for(es, abbrev(i as int)) == last_entry_for(es.take(j as int), abbrev(i as int)),
        decreases j,
    {
        j = j - 1;
        let parts = split_chars(&entries[j], '+');
        let ghost pre = es.take(j as int + 1);
        assert(pre.drop_last() =~= es.take(j as int));
        assert(pre.last() == entries@[j as int]@);
        assert(parts@.map_values(|p: Vec<char>| p@)[0] == parts@[0]@);
        if same_chars(&parts[0], &key) {
            if parts.len() >= 2 {
                assert(parts@.map_values(|p: Vec<char>| p@)[1] == parts@[1]@);
                return parse_u8(&parts[1]);
            }
            return None;
        }
    }
    assert(es.take(0) =~= Seq::<Seq<char>>::empty());
    Some(0)
}

impl Default for AbilityScores {
    /// All-zero scores.
    fn default() -> (r: AbilityScores)
        ensures
            r == AbilityScores::zero(),
    {
        AbilityScores {
            strength: 0,
            dexterity: 0,
            constitution: 0,
            intelligence: 0,
            wisdom: 0,
            charisma: 0,
        }
    }
}

impl AbilityScores {
    /// The canonical token: an entry `abbrev+value` for each non-zero score,
    /// in canonical order, joined by `;`. All-zero scores give "".
    pub fn encode(&self) -> (r: String)
        ensures
            r@ == encoded(*self),
    {
        let mut out = String::new();
        let mut any = false;
        let mut i: usize = 0;
        while i < ABILITY_COUNT
            invariant
                i <= ABILITY_COUNT,
                out@ == join(entries_of(*self, i as int), ';'),
                any == (entries_of(*self, i as int).len() > 0),
            decreases ABILITY_COUNT - i,
        {
            let v = self.get(i);
            if v > 0 {
                let ghost before = out@;
                let ghost prev = entries_of(*self, i as int);
                let ghost e = entry(i as int, v as nat);
                if any {
                    out.append(";");
                    proof {
                        reveal_strlit(";");
                    }
                }
                let ghost sep_part = out@;
                out.append(abbrev_str(i));
                out.append("+");
                proof {
                    reveal_strlit("+");
                }
                push_decimal(&mut out, v);
                proof {
                    assert(seq![abbrev(i as int), decimal(v as nat)].drop_last() =~= seq![abbrev(i as int)]);
                    assert(join(seq![abbrev(i as int)], '+') == abbrev(i as int));
                    assert(e == abbrev(i as int).push('+') + decimal(v as nat));
                    assert(out@ =~= sep_part + e);
                    assert(entries_of(*self, i as int + 1) == prev.push(e));
                    assert(prev.push(e).drop_last() =~= prev);
                    if prev.len() == 0 {
                        assert(sep_part =~= Seq::<char>::empty());
                        assert(out@ =~= join(prev.push(e), ';'));
                    } else {
                        assert(sep_part =~= before.push(';'));
                        assert(out@ =~= join(prev.push(e), ';'));
                    }
                }
                any = true;
            }
            i = i + 1;
        }
        out
    }

    /// Reads a token: entries `abbrev+value` joined by `;`. An ability with no
    /// entry scores zero, the last entry of a name decides, unknown names are
    /// ignored. Fails with `DecodeError` where a deciding entry has no value or
    /// one that is not a decimal `u8`.
    pub fn decode(token: &str) -> (r: Result<AbilityScores, YAPCCError>)
        ensures
            match r {
                Ok(s) => is_valid_token(token@) && s == decoded(token@),
                Err(e) => !is_valid_token(token@) && e is DecodeError,
            },
    {
        let chars = chars_of(token);
        let entries = split_chars(&chars, ';');
        let mut scores = AbilityScores {
            strength: 0,
            dexterity: 0,
            constitution: 0,
            intelligence: 0,
            wisdom: 0,
            charisma: 0,
        };
        let mut i: usize = 0;
        while i < ABILITY_COUNT
            invariant
                i <= ABILITY_COUNT,
                entries@.map_values(|p: Vec<char>| p@) == split(token@, ';'),
                forall|j: int|
                    0 <= j < i ==> (#[trigger] field_of(token@, j)) == Some(scores.score(j)),
            decreases ABILITY_COUNT - i,
        {
            match field_from_entries(&entries, i) {
                Some(v) => scores.set(i, v),
                None => {
                    assert(field_of(token@, i as int) is None);
                    return Err(YAPCCError::DecodeError(String::from_str("unable to parse abilities")));
                },
            }
            i = i + 1;
        }
        assert(field_of(token@, 0) == Some(scores.score(0)));
        assert(field_of(token@, 1) == Some(scores.score(1)));
        assert(field_of(token@, 2) == Some(scores.score(2)));
        assert(field_of(token@, 3) == Some(scores.score(3)));
        assert(field_of(token@, 4) == Some(scores.score(4)));
        assert(field_of(token@, 5) == Some(scores.score(5)));
        Ok(scores)
    }
}

proof fn lemma_abbrev(i: int, j: int)
    requires
        0 <= i < 6,
        0 <= j < 6,
    ensures
        lacks(abbrev(i), '+'),
        lacks(abbrev(i), ';'),
        abbrev(i).len() == 3,
        i != j ==> abbrev(i) != abbrev(j),
{
    if i != j {
        assert(abbrev(i)[0] != abbrev(j)[0] || abbrev(i)[1] != abbrev(j)[1]);
    }
}

/// An entry splits on `+` into its name and its value.
proof fn lemma_entry(i: int, v: nat)
    requires
        0 <= i < 6,
    ensures
        split(entry(i, v), '+') == seq![abbrev(i), decimal(v)],
        lacks(entry(i, v), ';'),
{
    lemma_abbrev(i, i);
    lemma_decimal_lacks(v, '+');
    lemma_decimal_lacks(v, ';');
    let parts = seq![abbrev(i), decimal(v)];
    assert forall|k: int| 0 <= k < parts.len() implies lacks(#[trigger] parts[k], '+') by {}
    lemma_split_join(parts, '+');
    assert(parts.drop_last() =~= seq![abbrev(i)]);
    assert(join(seq![abbrev(i)], '+') == abbrev(i));
    assert(entry(i, v) == abbrev(i).push('+') + decimal(v));
    let e = entry(i, v);
    assert forall|k: int| 0 <= k < e.len() implies e[k] != ';' by {
        if k < 3 {
            assert(e[k] == abbrev(i)[k]);
        } else if k > 3 {
            assert(e[k] == decimal(v)[k - 4]);
        }
    }
}

/// Among the entries of the first `n` abilities, the one named like the
/// ability at `i` is its own, present where its score is non-zero.
proof fn lemma_entries_lookup(s: AbilityScores, n: int, i: int)
    requires
        0 <= n <= 6,
        0 <= i < 6,
    ensures
        last_entry_for(entries_of(s, n), abbrev(i)) == if i < n && s.score(i) > 0 {
            Some(entry(i, s.score(i) as nat))
        } else {
            None
        },
        forall|k: int| 0 <= k < entries_of(s, n).len() ==> lacks(#[trigger] entries_of(s, n)[k], ';'),
    decreases n,
{
    if n > 0 {
        lemma_entries_lookup(s, n - 1, i);
        let prev = entries_of(s, n - 1);
        if s.score(n - 1) > 0 {
            let e = entry(n - 1, s.score(n - 1) as nat);
            lemma_entry(n - 1, s.score(n - 1) as nat);
            lemma_abbrev(n - 1, i);
            assert(entry_name(e) == abbrev(n - 1));
            assert(prev.push(e).drop_last() =~= prev);
            assert forall|k: int| 0 <= k < prev.push(e).len() implies lacks(
                #[trigger] prev.push(e)[k],
                ';',
            ) by {
                if k < prev.len() {
                    assert(prev.push(e)[k] == prev[k]);
                }
            }
        }
    }
}

/// Decoding the canonical token of any scores gives those scores back.
pub proof fn lemma_codec_round_trip(s: AbilityScores)
    ensures
        is_valid_token(encoded(s)),
        decoded(encoded(s)) == s,
{
    let t = encoded(s);
    let es = entries_of(s, 6);
    assert forall|i: int| 0 <= i < 6 implies (#[trigger] field_of(t, i)) == Some(s.score(i)) by {
        lemma_entries_lookup(s, 6, i);
        lemma_abbrev(i, i);
        if es.len() > 0 {
            lemma_split_join(es, ';');
        } else {
            let empty = Seq::<char>::empty();
            assert(split(t, ';') == seq![empty]);
            assert(split(empty, '+') == seq![empty]);
            assert(entry_name(empty) != abbrev(i));
            assert(seq![empty].drop_last() =~= Seq::<Seq<char>>::empty());
            assert(seq![empty].last() == empty);
            assert(last_entry_for(Seq::<Seq<char>>::empty(), abbrev(i)) is None);
            assert(last_entry_for(seq![empty], abbrev(i)) is None);
            assert(last_entry_for(es, abbrev(i)) is None);
        }
        assert(last_entry_for(split(t, ';'), abbrev(i)) == last_entry_for(es, abbrev(i)));
        if s.score(i) > 0 {
            let v = s.score(i) as nat;
            lemma_entry(i, v);
            lemma_decimal(v);
            assert(split(entry(i, v), '+')[1] == decimal(v));
        }
    }
    assert(field_of(t, 0) == Some(s.score(0)));
    assert(field_of(t, 1) == Some(s.score(1)));
    assert(field_of(t, 2) == Some(s.score(2)));
    assert(field_of(t, 3) == Some(s.score(3)));
    assert(field_of(t, 4) == Some(s.score(4)));
    assert(field_of(t, 5) == Some(s.score(5)));
}

} // verus!
