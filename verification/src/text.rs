//! Small text-building helpers shared by the emitters.

use vstd::prelude::*;
use vstd::string::{StrSliceExecFns, StringExecFns};

verus! {

/// Relies on `str`'s `PartialEq`: two slices are equal exactly when their
/// character sequences are.
#[verifier::external_body]
pub(crate) fn str_eq(a: &str, b: &str) -> (r: bool)
    ensures
        r == (a@ == b@),
{
    a == b
}

/// Relies on `String::push`: appends the one character.
#[verifier::external_body]
pub(crate) fn push_char(s: &mut String, c: char)
    ensures
        final(s)@ == old(s)@ + seq![c],
{
    s.push(c);
}

/// The character for a single decimal digit.
pub open spec fn digit_char(d: int) -> char {
    if d == 0 {
        '0'
    } else if d == 1 {
        '1'
    } else if d == 2 {
        '2'
    } else if d == 3 {
        '3'
    } else if d == 4 {
        '4'
    } else if d == 5 {
        '5'
    } else if d == 6 {
        '6'
    } else if d == 7 {
        '7'
    } else if d == 8 {
        '8'
    } else {
        '9'
    }
}

/// Decimal rendering of a non-negative integer, most significant digit
/// first, with no leading zeros (`0` itself is rendered as "0").
#[verifier::opaque]
pub open spec fn dec_of(n: int) -> Seq<char>
    decreases n,
{
    if n < 10 {
        seq![digit_char(n)]
    } else {
        dec_of(n / 10) + seq![digit_char(n % 10)]
    }
}

fn digit_to_char(d: usize) -> (c: char)
    requires
        d < 10,
    ensures
        c == digit_char(d as int),
{
    match d {
        0 => '0',
        1 => '1',
        2 => '2',
        3 => '3',
        4 => '4',
        5 => '5',
        6 => '6',
        7 => '7',
        8 => '8',
        _ => '9',
    }
}

/// Appends the decimal rendering of `n`.
pub fn push_dec(out: &mut String, n: usize)
    ensures
        final(out)@ == old(out)@ + dec_of(n as int),
    decreases n,
{
    proof {
        reveal(dec_of);
    }
    if n >= 10 {
        push_dec(out, n / 10);
    }
    let c = digit_to_char(n % 10);
    push_char(out, c);
}

/// The text of `var_name` offset by `c` bytes: the name alone when the
/// offset is 0, and `var_name + c` otherwise.
#[verifier::opaque]
pub open spec fn simplified_add_spec(var_name: Seq<char>, c: int) -> Seq<char> {
    if c == 0 {
        var_name
    } else {
        var_name + " + "@ + dec_of(c)
    }
}

/// If `c = 0`, return `var_name`, else `var_name + c`.
pub fn simplified_add(var_name: &str, c: usize) -> (r: String)
    ensures
        r@ == simplified_add_spec(var_name@, c as int),
{
    proof {
        reveal(simplified_add_spec);
    }
    let mut s = String::from_str(var_name);
    if c != 0 {
        s.append(" + ");
        push_dec(&mut s, c);
    }
    s
}

/// Number of 32-bit words needed to store `bytes` bytes.
pub open spec fn uints_of(bytes: int) -> int {
    (bytes + 3) / 4
}

/// Return number of `uint`s required to store `num_bytes` bytes.
pub fn size_in_uints(num_bytes: usize) -> (r: usize)
    requires
        num_bytes + 3 <= usize::MAX,
    ensures
        r as int == uints_of(num_bytes as int),
{
    (num_bytes + 3) / 4
}

} // verus!

verus! {

/// The character sequences of a sequence of strings.
pub open spec fn names_view(v: Seq<String>) -> Seq<Seq<char>> {
    v.map_values(|s: String| s@)
}

/// Whether a character has the Unicode uppercase property; said only by
/// `char::is_uppercase`.
pub uninterp spec fn is_upper_char(c: char) -> bool;

/// The lowercase mapping of a character; said only by
/// `char::to_lowercase`.
pub uninterp spec fn lower_chars(c: char) -> Seq<char>;

/// The uppercase mapping of a string; said only by `str::to_uppercase`.
pub uninterp spec fn upper_str(s: Seq<char>) -> Seq<char>;

/// Relies on `char::is_uppercase`: the Unicode uppercase property of the
/// character alone.
#[verifier::external_body]
pub(crate) fn char_is_uppercase(c: char) -> (r: bool)
    ensures
        r == is_upper_char(c),
{
    c.is_uppercase()
}

/// Relies on `char::to_lowercase`: the lowercase mapping depends on the
/// character alone and yields at least one character.
#[verifier::external_body]
pub(crate) fn char_lowercase_chars(c: char) -> (r: Vec<char>)
    ensures
        r@ == lower_chars(c),
        r@.len() >= 1,
{
    c.to_lowercase().collect()
}

/// Relies on `str::to_uppercase`: the result depends on the characters
/// alone.
#[verifier::external_body]
pub(crate) fn str_to_uppercase(s: &str) -> (r: String)
    ensures
        r@ == upper_str(s@),
{
    s.to_uppercase()
}

/// One step of the snake-case scan. An underscore closes the word being
/// built (or, among leading underscores, records an empty word); any
/// other character is lowercased into the word, which is first closed at
/// an uppercase letter that does not continue an uppercase run.
pub open spec fn snake_step(
    words: Seq<Seq<char>>,
    buf: Seq<char>,
    last_upper: bool,
    leading: bool,
    c: char,
) -> (Seq<Seq<char>>, Seq<char>, bool, bool) {
    if c == '_' {
        if leading {
            (words.push(Seq::empty()), Seq::empty(), false, true)
        } else if buf.len() > 0 {
            (words.push(buf), Seq::empty(), false, false)
        } else {
            (words, Seq::empty(), false, false)
        }
    } else {
        let break_word = buf.len() > 0 && buf != "'"@ && is_upper_char(c) && !last_upper;
        let w2 = if break_word {
            words.push(buf)
        } else {
            words
        };
        let b2 = if break_word {
            Seq::empty() + lower_chars(c)
        } else {
            buf + lower_chars(c)
        };
        (w2, b2, is_upper_char(c), false)
    }
}

/// The words produced by scanning `s` from position `i` in the given
/// state; a non-empty final word is kept.
pub open spec fn snake_run(
    s: Seq<char>,
    i: int,
    words: Seq<Seq<char>>,
    buf: Seq<char>,
    last_upper: bool,
    leading: bool,
) -> Seq<Seq<char>>
    decreases s.len() - i,
{
    if i < 0 || i >= s.len() {
        if buf.len() > 0 {
            words.push(buf)
        } else {
            words
        }
    } else {
        let st = snake_step(words, buf, last_upper, leading, s[i]);
        snake_run(s, i + 1, st.0, st.1, st.2, st.3)
    }
}

/// The snake-case words of a name.
pub open spec fn snake_words(s: Seq<char>) -> Seq<Seq<char>> {
    snake_run(s, 0, Seq::empty(), Seq::empty(), false, true)
}

/// The underscore-join of the first `n` words.
pub open spec fn join_words(words: Seq<Seq<char>>, n: int) -> Seq<char>
    decreases n,
{
    if n <= 0 {
        Seq::empty()
    } else if n == 1 {
        words[0]
    } else {
        join_words(words, n - 1) + seq!['_'] + words[n - 1]
    }
}

/// The snake-case form of a name: lowercased, broken at uppercase
/// transitions, with leading underscores preserved.
pub open spec fn snake_of(s: Seq<char>) -> Seq<char> {
    join_words(snake_words(s), snake_words(s).len() as int)
}

/// Lower-cases with underscore breaks at each uppercase transition,
/// preserving leading underscores as empty leading words.
#[verifier::loop_isolation(false)]
#[verifier::rlimit(60)]
pub fn to_snake_case(s: &str) -> (r: String)
    ensures
        r@ == snake_of(s@),
{
    let mut words: Vec<String> = Vec::new();
    let mut buf = String::new();
    let mut last_upper = false;
    let mut leading = true;
    let n = s.unicode_len();
    proof {
        assert(names_view(words@) =~= Seq::<Seq<char>>::empty());
    }
    let mut i: usize = 0;
    while i < n
        invariant
            i <= n,
            n == s@.len(),
            snake_run(s@, i as int, names_view(words@), buf@, last_upper, leading) == snake_words(
                s@,
            ),
        decreases n - i,
    {
        let c = s.get_char(i);
        let ghost pre_words = names_view(words@);
        let ghost pre_buf = buf@;
        let ghost pre_lu = last_upper;
        let ghost pre_ld = leading;
        if c == '_' {
            if leading {
                words.push(String::new());
                buf = String::new();
                last_upper = false;
            } else if !buf.as_str().is_empty() {
                words.push(buf);
                buf = String::new();
                last_upper = false;
            } else {
                buf = String::new();
                last_upper = false;
            }
            proof {
                let st = snake_step(pre_words, pre_buf, pre_lu, pre_ld, c);
                assert(names_view(words@) =~~= st.0);
                assert(buf@ =~= st.1);
                assert(last_upper == st.2 && leading == st.3);
            }
        } else {
            let upper = char_is_uppercase(c);
            if !buf.as_str().is_empty() && !str_eq(buf.as_str(), "'") && upper && !last_upper {
                words.push(buf);
                buf = String::new();
            }
            last_upper = upper;
            let lc = char_lowercase_chars(c);
            let ghost mid_buf = buf@;
            let mut j: usize = 0;
            while j < lc.len()
                invariant
                    j <= lc@.len(),
                    buf@ == mid_buf + lc@.take(j as int),
                decreases lc@.len() - j,
            {
                push_char(&mut buf, lc[j]);
                proof {
                    assert(mid_buf + lc@.take(j as int) + seq![lc@[j as int]] =~= mid_buf
                        + lc@.take(j as int + 1));
                }
                j += 1;
            }
            leading = false;
            proof {
                let st = snake_step(pre_words, pre_buf, pre_lu, pre_ld, c);
                assert(lc@.take(lc@.len() as int) =~= lc@);
                assert(names_view(words@) =~~= st.0);
                assert(buf@ =~= st.1);
                assert(last_upper == st.2 && leading == st.3);
            }
        }
        i += 1;
    }
    if !buf.as_str().is_empty() {
        words.push(buf);
        proof {
            assert(names_view(words@) =~~= snake_words(s@));
        }
    }
    let mut r = String::new();
    let ghost wv = names_view(words@);
    let mut k: usize = 0;
    while k < words.len()
        invariant
            k <= words@.len(),
            wv == names_view(words@),
            r@ == join_words(wv, k as int),
        decreases words@.len() - k,
    {
        if k > 0 {
            push_char(&mut r, '_');
        }
        r.append(words[k].as_str());
        k += 1;
    }
    r
}

} // verus!
