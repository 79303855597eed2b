//! Entry identifiers for the per-group durable log, and their wire encoding.
//!
//! An entry identifier is a pair of counters, written on the wire as two
//! decimal numerals joined by a dash (for example `"7-0"`).  Identifiers are
//! totally ordered, and the log assigns them in strictly increasing order, so
//! a client can use the last identifier it saw as a resumption cursor.

use vstd::prelude::*;

verus! {

/// The decimal digit character for a value below ten.
pub open spec fn digit_char(d: nat) -> char {
    if d == 0 {
        '0'
    } else if d == 1 {
        '1'
    } else if d == 2 {
        '2'
    } else if d == 3 {
        '3'
    } else if d == 4 {
        '4'
    } else if d == 5 {
        '5'
    } else if d == 6 {
        '6'
    } else if d == 7 {
        '7'
    } else if d == 8 {
        '8'
    } else {
        '9'
    }
}

/// Whether a character is a decimal digit.
pub open spec fn is_digit(c: char) -> bool {
    48 <= c as u32 <= 57
}

/// The numeric value of a digit character.
pub open spec fn digit_val(c: char) -> nat {
    ((c as u32) - 48) as nat
}

/// Whether every character of the sequence is a decimal digit.
pub open spec fn all_digits(s: Seq<char>) -> bool {
    forall|i: int| 0 <= i < s.len() ==> is_digit(#[trigger] s[i])
}

/// A non-empty, all-digit sequence: the decimal numerals the wire accepts.
pub open spec fn is_dec_numeral(s: Seq<char>) -> bool {
    s.len() > 0 && all_digits(s)
}

/// The value of a digit sequence read as a decimal numeral.
pub open spec fn dec_value(s: Seq<char>) -> nat
    decreases s.len(),
{
    if s.len() == 0 {
        0
    } else {
        dec_value(s.drop_last()) * 10 + digit_val(s.last())
    }
}

/// The canonical decimal numeral for a number: no leading zeros,
/// except that zero itself is written `"0"`.
pub open spec fn dec_digits(n: nat) -> Seq<char>
    decreases n,
{
    if n < 10 {
        seq![digit_char(n)]
    } else {
        dec_digits(n / 10).push(digit_char(n % 10))
    }
}

/// `digit_char` and `digit_val` invert each other on digit values.
proof fn lemma_digit_char_val(d: nat)
    requires
        d < 10,
    ensures
        is_digit(digit_char(d)),
        digit_val(digit_char(d)) == d,
{
}

/// The canonical numeral of `n` is a numeral and reads back as `n`.
pub proof fn lemma_dec_digits_value(n: nat)
    ensures
        is_dec_numeral(dec_digits(n)),
        dec_value(dec_digits(n)) == n,
    decreases n,
{
    if n < 10 {
        lemma_digit_char_val(n);
        let s = dec_digits(n);
        assert(s.last() == digit_char(n));
        assert(s.drop_last() =~= Seq::<char>::empty());
        assert(dec_value(s.drop_last()) == 0);
        assert(dec_value(s) == dec_value(s.drop_last()) * 10 + digit_val(s.last()));
    } else {
        lemma_dec_digits_value(n / 10);
        lemma_digit_char_val(n % 10);
        let s = dec_digits(n);
        assert(s.last() == digit_char(n % 10));
        assert(s.drop_last() =~= dec_digits(n / 10));
        assert(dec_value(s) == dec_value(s.drop_last()) * 10 + digit_val(s.last()));
        assert(dec_value(s) == (n / 10) * 10 + n % 10);
        assert((n / 10) * 10 + n % 10 == n) by (nonlinear_arith);
    }
}

/// The value of a numeral is monotone in its prefixes.
proof fn lemma_dec_value_prefix_le(s: Seq<char>, i: int)
    requires
        0 <= i <= s.len(),
    ensures
        dec_value(s.subrange(0, i)) <= dec_value(s),
    decreases s.len() - i,
{
    if i == s.len() {
        assert(s.subrange(0, i) =~= s);
    } else {
        lemma_dec_value_prefix_le(s, i + 1);
        let p = s.subrange(0, i);
        let q = s.subrange(0, i + 1);
        assert(q.drop_last() =~= p);
        assert(dec_value(q) == dec_value(p) * 10 + digit_val(s[i]));
        assert(dec_value(p) * 10 >= dec_value(p)) by (nonlinear_arith);
    }
}

/// The one-character string for a digit value.
fn digit_str(d: u64) -> (s: &'static str)
    requires
        d < 10,
    ensures
        s@ =~= seq![digit_char(d as nat)],
{
    proof {
        reveal_strlit("0");
        reveal_strlit("1");
        reveal_strlit("2");
        reveal_strlit("3");
        reveal_strlit("4");
        reveal_strlit("5");
        reveal_strlit("6");
        reveal_strlit("7");
        reveal_strlit("8");
        reveal_strlit("9");
    }
    if d == 0 {
        "0"
    } else if d == 1 {
        "1"
    } else if d == 2 {
        "2"
    } else if d == 3 {
        "3"
    } else if d == 4 {
        "4"
    } else if d == 5 {
        "5"
    } else if d == 6 {
        "6"
    } else if d == 7 {
        "7"
    } else if d == 8 {
        "8"
    } else {
        "9"
    }
}

/// Render a number as its canonical decimal numeral.
pub fn u64_to_dec(n: u64) -> (s: String)
    ensures
        s@ == dec_digits(n as nat),
    decreases n,
{
    if n < 10 {
        let s = digit_str(n).to_owned();
        proof {
            assert(s@ =~= dec_digits(n as nat));
        }
        s
    } else {
        proof {
            assert(n as nat / 10 < n as nat) by (nonlinear_arith)
                requires
                    n >= 10,
            ;
        }
        let prefix = u64_to_dec(n / 10);
        let s = prefix.concat(digit_str(n % 10));
        proof {
            assert(s@ =~= dec_digits(n as nat));
        }
        s
    }
}

/// Parse a decimal numeral.  Returns the value exactly when the whole
/// string is a non-empty digit sequence whose value fits in a `u64`.
pub fn parse_u64_dec(s: &str) -> (r: Option<u64>)
    ensures
        match r {
            Some(v) => is_dec_numeral(s@) && dec_value(s@) <= u64::MAX && v == dec_value(s@),
            None => !(is_dec_numeral(s@) && dec_value(s@) <= u64::MAX),
        },
{
    let len = s.unicode_len();
    if len == 0 {
        return None;
    }
    let mut acc: u64 = 0;
    let mut i: usize = 0;
    proof {
        assert(s@.subrange(0, 0) =~= Seq::<char>::empty());
    }
    while i < len
        invariant
            0 <= i <= len,
            len == s@.len(),
            all_digits(s@.subrange(0, i as int)),
            acc == dec_value(s@.subrange(0, i as int)),
        decreases len - i,
    {
        let c = s.get_char(i);
        let code = c as u32;
        if code < 48 || code > 57 {
            return None;
        }
        let d: u64 = (code - 48) as u64;
        let ghost prefix = s@.subrange(0, i as int);
        let ghost extended = s@.subrange(0, i as int + 1);
        proof {
            assert(extended.drop_last() =~= prefix);
            assert(extended.last() == s@[i as int]);
        }
        let step = match acc.checked_mul(10) {
            Some(x) => x.checked_add(d),
            None => None,
        };
        match step {
            Some(v) => {
                acc = v;
            },
            None => {
                proof {
                    lemma_dec_value_prefix_le(s@, i as int + 1);
                }
                return None;
            },
        }
        i += 1;
    }
    proof {
        assert(s@.subrange(0, len as int) =~= s@);
    }
    Some(acc)
}

/// An identifier assigned by the durable log to one appended entry.
///
/// Ordered lexicographically by `ms` then `seq`; the log hands them out in
/// strictly increasing order, so they serve as resumption cursors.
#[derive(Clone, Copy, PartialEq, Eq, Structural, Debug)]
pub struct EntryId {
    pub ms: u64,
    pub seq: u64,
}

/// Strict lexicographic order on entry identifiers.
pub open spec fn entry_id_lt(a: EntryId, b: EntryId) -> bool {
    a.ms < b.ms || (a.ms == b.ms && a.seq < b.seq)
}

/// The wire spelling of an entry identifier: two numerals joined by a dash.
pub open spec fn entry_id_chars(id: EntryId) -> Seq<char> {
    dec_digits(id.ms as nat) + seq!['-'] + dec_digits(id.seq as nat)
}

/// What a wire string parses to: split at the first dash, then read the two
/// halves as decimal numerals.  Absent dash, empty or non-digit halves, and
/// values over `u64::MAX` all reject.
pub open spec fn parse_entry_id_chars(s: Seq<char>) -> Option<EntryId> {
    match s.index_of_first('-') {
        Some(i) => {
            let a = s.subrange(0, i);
            let b = s.subrange(i + 1, s.len() as int);
            if is_dec_numeral(a) && dec_value(a) <= u64::MAX && is_dec_numeral(b) && dec_value(b)
                <= u64::MAX {
                Some(
                    EntryId {
                        ms: dec_value(a) as u64,
                        seq: dec_value(b) as u64,
                    },
                )
            } else {
                None
            }
        },
        None => None,
    }
}

impl EntryId {
    /// Whether this identifier precedes another in log order.
    pub fn lt(self, other: EntryId) -> (r: bool)
        ensures
            r == entry_id_lt(self, other),
    {
        self.ms < other.ms || (self.ms == other.ms && self.seq < other.seq)
    }

    /// Render the identifier in its wire spelling.
    pub fn to_wire(self) -> (s: String)
        ensures
            s@ == entry_id_chars(self),
    {
        proof {
            reveal_strlit("-");
        }
        let s = u64_to_dec(self.ms).concat("-").concat(u64_to_dec(self.seq).as_str());
        proof {
            assert(s@ =~= entry_id_chars(self));
        }
        s
    }

    /// Parse a wire spelling.  Follows `parse_entry_id_chars` exactly.
    pub fn parse(s: &str) -> (r: Option<EntryId>)
        ensures
            r == parse_entry_id_chars(s@),
    {
        let len = s.unicode_len();
        let mut i: usize = 0;
        while i < len
            invariant
                0 <= i <= len,
                len == s@.len(),
                forall|j: int| 0 <= j < i ==> s@[j] != '-',
            decreases len - i,
        {
            if s.get_char(i) == '-' {
                proof {
                    s@.index_of_first_ensures('-');
                    assert(s@.contains('-'));
                }
                let a = s.substring_char(0, i);
                let b = s.substring_char(i + 1, len);
                let ms = match parse_u64_dec(a) {
                    Some(v) => v,
                    None => {
                        return None;
                    },
                };
                let seq_part = match parse_u64_dec(b) {
                    Some(v) => v,
                    None => {
                        return None;
                    },
                };
                return Some(EntryId { ms, seq: seq_part });
            }
            i += 1;
        }
        proof {
            s@.index_of_first_ensures('-');
            if s@.contains('-') {
                let w = choose|w: int| 0 <= w < s@.len() && s@[w] == '-';
                assert(s@[w] == '-');
            }
        }
        None
    }
}

/// Round trip: the wire spelling of an identifier parses back to it.
///
/// Law: rendering any `EntryId` and parsing the result is the identity.
pub proof fn lemma_entry_id_round_trip(id: EntryId)
    ensures
        parse_entry_id_chars(entry_id_chars(id)) == Some(id),
{
    let s = entry_id_chars(id);
    let a = dec_digits(id.ms as nat);
    let b = dec_digits(id.seq as nat);
    lemma_dec_digits_value(id.ms as nat);
    lemma_dec_digits_value(id.seq as nat);
    s.index_of_first_ensures('-');
    assert(s[a.len() as int] == '-');
    assert(s.contains('-'));
    let i = s.index_of_first('-').unwrap();
    assert(forall|j: int| 0 <= j < a.len() ==> s[j] == a[j] && is_digit(#[trigger] a[j]));
    assert(i == a.len()) by {
        if i < a.len() {
            assert(is_digit(a[i]));
            assert(s[i] == '-');
        }
    }
    assert(s.subrange(0, i) =~= a);
    assert(s.subrange(i + 1, s.len() as int) =~= b);
}

} // verus!
