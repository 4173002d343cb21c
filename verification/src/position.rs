//! The text form of a position: three numbers with one blank between each two.

use vstd::prelude::*;
use vstd::string::StrSliceExecFns;
use vstd::string::StringExecFns;

verus! {

/// The number of blanks among the first `upto` characters.
pub open spec fn blank_count(text: Seq<char>, upto: int) -> nat
    decreases upto,
{
    if upto <= 0 {
        0
    } else {
        blank_count(text, upto - 1) + if text[upto - 1] == ' ' {
            1nat
        } else {
            0nat
        }
    }
}

/// The text has no blank.
pub open spec fn unbroken(text: Seq<char>) -> bool {
    forall|i: int| 0 <= i < text.len() ==> text[i] != ' '
}

/// The three fields with a blank between each two spell the text, and no field has a
/// blank.
pub open spec fn splits(text: Seq<char>, fields: [String; 3]) -> bool {
    &&& text == fields@[0]@ + seq![' '] + fields@[1]@ + seq![' '] + fields@[2]@
    &&& unbroken(fields@[0]@)
    &&& unbroken(fields@[1]@)
    &&& unbroken(fields@[2]@)
}

/// A text without blanks among its first characters has none counted there.
pub proof fn lemma_no_blanks(text: Seq<char>, upto: int)
    requires
        0 <= upto <= text.len(),
    ensures
        blank_count(text, upto) == 0 <==> forall|i: int| 0 <= i < upto ==> text[i] != ' ',
    decreases upto,
{
    if upto > 0 {
        lemma_no_blanks(text, upto - 1);
    }
}

/// The fields of a position: the three parts of a text that has exactly two blanks.
pub fn position_fields(text: &str) -> (r: Option<[String; 3]>)
    ensures
        r is Some <==> blank_count(text@, text@.len() as int) == 2,
        r matches Some(fields) ==> splits(text@, fields),
{
    let n = text.unicode_len();
    let mut first: usize = 0;
    let mut second: usize = 0;
    let mut found: usize = 0;
    let mut i: usize = 0;
    while i < n
        invariant
            i <= n,
            n == text@.len(),
            found <= 2,
            found == blank_count(text@, i as int),
            found >= 1 ==> first < i && text@[first as int] == ' ' && blank_count(
                text@,
                first as int,
            ) == 0,
            found == 2 ==> first < second < i && text@[second as int] == ' ' && blank_count(
                text@,
                second as int,
            ) == 1,
        decreases n - i,
    {
        if text.get_char(i) == ' ' {
            if found == 0 {
                first = i;
            } else if found == 1 {
                second = i;
            } else {
                proof {
                    lemma_count_grows(text@, i + 1, n as int);
                }
                return None;
            }
            found += 1;
        }
        i += 1;
    }
    if found != 2 {
        return None;
    }
    let a = String::from_str(text.substring_char(0, first));
    let b = String::from_str(text.substring_char(first + 1, second));
    let c = String::from_str(text.substring_char(second + 1, n));
    let fields = [a, b, c];
    proof {
        assert(text@ =~= fields@[0]@ + seq![' '] + fields@[1]@ + seq![' '] + fields@[2]@);
        lemma_no_blanks(text@, first as int);
        lemma_between(text@, first + 1, second as int);
        lemma_between(text@, second + 1, n as int);
    }
    Some(fields)
}

/// The count of blanks among more characters is no smaller.
pub proof fn lemma_count_grows(text: Seq<char>, fewer: int, more: int)
    requires
        fewer <= more,
    ensures
        blank_count(text, fewer) <= blank_count(text, more),
    decreases more - fewer,
{
    if fewer < more {
        lemma_count_grows(text, fewer, more - 1);
    }
}

/// Where the count of blanks is the same before two places, no blank lies between them.
pub proof fn lemma_between(text: Seq<char>, from: int, to: int)
    requires
        0 <= from <= to <= text.len(),
        blank_count(text, from) == blank_count(text, to),
    ensures
        forall|i: int| from <= i < to ==> text[i] != ' ',
    decreases to - from,
{
    if from < to {
        lemma_count_grows(text, from, to - 1);
        lemma_between(text, from, to - 1);
    }
}

} // verus!
