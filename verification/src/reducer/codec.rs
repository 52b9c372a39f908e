use vstd::prelude::*;
use vstd::string::*;
use super::BTreeReducer;
use crate::error::Error;

verus! {

/// The text form of a vector of bits: `'1'` for a high bit, `'0'` for a low
/// one, in the same order.
pub open spec fn encoded(bits: Seq<bool>) -> Seq<char> {
    bits.map_values(
        |b: bool|
            if b {
                '1'
            } else {
                '0'
            },
    )
}

/// Every character is `'0'` or `'1'`.
pub open spec fn legible(text: Seq<char>) -> bool {
    forall|i: int| 0 <= i < text.len() ==> text[i] == '0' || text[i] == '1'
}

/// The vector of bits that a legible text stands for.
pub open spec fn decoded(text: Seq<char>) -> Seq<bool> {
    text.map_values(|c: char| c == '1')
}

/// What reading `text` gives: its bits if it is legible, else a refusal.
pub open spec fn reading(text: Seq<char>) -> Result<Seq<bool>, Error> {
    if legible(text) {
        Ok(decoded(text))
    } else {
        Err(Error::InvalidCharacter)
    }
}

/// Writing a vector of bits and reading the text back gives the vector.
pub proof fn lemma_round_trip(bits: Seq<bool>)
    ensures
        legible(encoded(bits)),
        decoded(encoded(bits)) == bits,
        reading(encoded(bits)) == Ok::<Seq<bool>, Error>(bits),
{
    assert(decoded(encoded(bits)) =~= bits);
}

/// Reading a legible text and writing the bits gives the text.
pub proof fn lemma_trip_round(text: Seq<char>)
    requires
        legible(text),
    ensures
        encoded(decoded(text)) == text,
{
    assert(encoded(decoded(text)) =~= text);
}

impl BTreeReducer<bool> {
    /// Reads a text of `'0'` and `'1'` as a vector of bits. Refused when the
    /// text holds any other character.
    pub fn try_str_to_bool(s: String) -> (r: Result<Vec<bool>, Error>)
        ensures
            r.is_ok() == legible(s@),
            r.is_ok() ==> r.unwrap()@ == decoded(s@),
            r.is_err() ==> r == Err::<Vec<bool>, Error>(Error::InvalidCharacter),
    {
        let mut bits: Vec<bool> = Vec::new();
        let text = s.as_str();
        let n = text.unicode_len();
        let mut i: usize = 0;
        while i < n
            invariant
                i <= n,
                n == s@.len(),
                text@ == s@,
                bits@.len() == i,
                forall|j: int| 0 <= j < i ==> s@[j] == '0' || s@[j] == '1',
                forall|j: int| 0 <= j < i ==> bits@[j] == (s@[j] == '1'),
            decreases n - i,
        {
            let c = text.get_char(i);
            if c == '0' {
                bits.push(false);
            } else if c == '1' {
                bits.push(true);
            } else {
                return Err(Error::InvalidCharacter);
            }
            i += 1;
        }
        assert(bits@ =~= decoded(s@));
        Ok(bits)
    }

    /// Writes a vector of bits as a text of `'0'` and `'1'`.
    pub fn bool_to_str(v: Vec<bool>) -> (s: String)
        ensures
            s@ == encoded(v@),
    {
        let mut s: String = String::new();
        let mut i: usize = 0;
        while i < v.len()
            invariant
                i <= v.len(),
                s@.len() == i,
                forall|j: int| 0 <= j < i ==> s@[j] == encoded(v@)[j],
            decreases v.len() - i,
        {
            proof {
                reveal_strlit("0");
                reveal_strlit("1");
            }
            if !v[i] {
                s.append("0");
            } else {
                s.append("1");
            }
            i += 1;
        }
        assert(s@ =~= encoded(v@));
        s
    }
}

} // verus!
