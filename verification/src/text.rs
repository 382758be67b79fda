//! Text helpers: lowercase symbols, names among the fields of a payload, the
//! part of a stream name that names the symbol, and numbers written in
//! decimal.

use vstd::prelude::*;
use vstd::string::StrSliceExecFns;
use vstd::string::StringExecFns;

verus! {

/// The lowercase form of a text, as `str::to_lowercase` of the standard
/// library gives it (Unicode's lowercase mapping).
pub uninterp spec fn lowercase(text: Seq<char>) -> Seq<char>;

/// Calls `str::to_lowercase`. The contract names its result
/// [`lowercase`] of the text and claims nothing else about it.
#[verifier::external_body]
pub(crate) fn to_lowercase(text: &str) -> (lower: String)
    ensures
        lower@ == lowercase(text@),
{
    text.to_lowercase()
}

/// The number of characters of `text` that stand before the first `stop`:
/// all of them when `text` holds no `stop`.
pub open spec fn len_before(text: Seq<char>, stop: char) -> nat
    decreases text.len(),
{
    if text.len() == 0 || text[0] == stop {
        0
    } else {
        1 + len_before(text.drop_first(), stop)
    }
}

/// The part of `text` that stands before the first `stop`.
pub open spec fn before_first(text: Seq<char>, stop: char) -> Seq<char> {
    text.take(len_before(text, stop) as int)
}

/// A position that no `stop` precedes and that holds a `stop`, or the end,
/// is where the part before the first `stop` ends.
pub proof fn lemma_len_before(text: Seq<char>, stop: char, n: int)
    requires
        0 <= n <= text.len(),
        forall|k: int| 0 <= k < n ==> text[k] != stop,
        n < text.len() ==> text[n] == stop,
    ensures
        len_before(text, stop) == n,
    decreases n,
{
    if n > 0 {
        let rest = text.drop_first();
        assert forall|k: int| 0 <= k < n - 1 implies rest[k] != stop by {
            assert(rest[k] == text[k + 1]);
        }
        lemma_len_before(rest, stop, n - 1);
    }
}

/// The part of `text` that stands before the first `stop`, as a new string.
pub fn prefix_before(text: &str, stop: char) -> (prefix: String)
    ensures
        prefix@ == before_first(text@, stop),
{
    let len = text.unicode_len();
    let mut n: usize = 0;
    while n < len && text.get_char(n) != stop
        invariant
            n <= len,
            len == text@.len(),
            forall|k: int| 0 <= k < n ==> text@[k] != stop,
        decreases len - n,
    {
        n += 1;
    }
    proof {
        lemma_len_before(text@, stop, n as int);
    }
    text.substring_char(0, n).to_owned()
}

/// The character that writes the digit `d`.
pub open spec fn digit_char(d: int) -> char {
    seq!['0', '1', '2', '3', '4', '5', '6', '7', '8', '9'][d]
}

/// The decimal notation of `n`, without leading zeros.
pub open spec fn decimal_digits(n: nat) -> Seq<char>
    decreases n,
{
    if n < 10 {
        seq![digit_char(n as int)]
    } else {
        decimal_digits(n / 10).push(digit_char((n % 10) as int))
    }
}

/// The digit `d` as a text.
fn digit_text(d: u8) -> (text: &'static str)
    requires
        d < 10,
    ensures
        text@ == seq![digit_char(d as int)],
{
    proof {
        reveal_strlit("0");
        reveal_strlit("1");
        reveal_strlit("2");
        reveal_strlit("3");
        reveal_strlit("4");
        reveal_strlit("5");
        reveal_strlit("6");
        reveal_strlit("7");
        reveal_strlit("8");
        reveal_strlit("9");
    }
    let text = match d {
        0 => "0",
        1 => "1",
        2 => "2",
        3 => "3",
        4 => "4",
        5 => "5",
        6 => "6",
        7 => "7",
        8 => "8",
        _ => "9",
    };
    proof {
        assert(text@ =~= seq![digit_char(d as int)]);
    }
    text
}

/// Writes `n` in decimal.
pub fn decimal(n: u128) -> (text: String)
    ensures
        text@ == decimal_digits(n as nat),
    decreases n,
{
    if n < 10 {
        String::from_str(digit_text(n as u8))
    } else {
        let mut text = decimal(n / 10);
        text.append(digit_text((n % 10) as u8));
        proof {
            assert(text@ =~= decimal_digits(n as nat));
        }
        text
    }
}

/// The texts joined, with `separator` between each two.
pub open spec fn joined(parts: Seq<Seq<char>>, separator: Seq<char>) -> Seq<char>
    decreases parts.len(),
{
    if parts.len() == 0 {
        Seq::empty()
    } else if parts.len() == 1 {
        parts[0]
    } else {
        joined(parts.drop_last(), separator) + separator + parts.last()
    }
}

/// What a list of strings holds.
pub open spec fn texts_of(strings: Seq<String>) -> Seq<Seq<char>> {
    strings.map_values(|s: String| s@)
}

/// `names` holds `name`.
pub open spec fn holds(names: Seq<Seq<char>>, name: Seq<char>) -> bool {
    names.contains(name)
}

/// Whether two texts are the same.
pub fn same_text(left: &str, right: &str) -> (same: bool)
    ensures
        same == (left@ == right@),
{
    left.to_owned() == right.to_owned()
}

/// Whether `names` holds `name`.
pub fn holds_name(names: &Vec<String>, name: &str) -> (found: bool)
    ensures
        found == holds(texts_of(names@), name@),
{
    let wanted = name.to_owned();
    let mut i: usize = 0;
    while i < names.len()
        invariant
            i <= names.len(),
            wanted@ == name@,
            forall|k: int| 0 <= k < i ==> (#[trigger] texts_of(names@)[k]) != name@,
        decreases names.len() - i,
    {
        if names[i] == wanted {
            proof {
                assert(texts_of(names@)[i as int] == name@);
            }
            return true;
        }
        i += 1;
    }
    false
}

/// Joins the strings, with `separator` between each two.
pub fn join(parts: &Vec<String>, separator: &str) -> (text: String)
    ensures
        text@ == joined(texts_of(parts@), separator@),
{
    let mut text = String::new();
    let mut i: usize = 0;
    while i < parts.len()
        invariant
            i <= parts.len(),
            text@ == joined(texts_of(parts@).take(i as int), separator@),
        decreases parts.len() - i,
    {
        proof {
            let done = texts_of(parts@).take(i + 1);
            assert(done.drop_last() =~= texts_of(parts@).take(i as int));
            assert(done.last() == parts@[i as int]@);
        }
        if i > 0 {
            text.append(separator);
        }
        text.append(parts[i].as_str());
        proof {
            assert(text@ =~= joined(texts_of(parts@).take(i + 1), separator@));
        }
        i += 1;
    }
    proof {
        assert(texts_of(parts@).take(parts.len() as int) =~= texts_of(parts@));
    }
    text
}

} // verus!
