use vstd::prelude::*;

verus! {

/// The character for a decimal digit.
pub open spec fn digit_char(d: int) -> char {
    (d + 48) as char
}

/// The decimal representation of `n`, without sign or leading zeros.
pub open spec fn decimal(n: nat) -> Seq<char>
    decreases n,
{
    if n < 10 {
        seq![digit_char(n as int)]
    } else {
        decimal(n / 10).push(digit_char((n % 10) as int))
    }
}

/// `s` left-padded with zeros to at least `width` characters.
pub open spec fn zero_padded(s: Seq<char>, width: nat) -> Seq<char> {
    if s.len() >= width {
        s
    } else {
        Seq::new((width - s.len()) as nat, |i: int| '0') + s
    }
}

/// A signed number in decimal, zero-padded to `width` characters with the
/// sign counted in the width (the `{:0width}` format).
pub open spec fn signed_zero_padded(n: int, width: nat) -> Seq<char> {
    if n < 0 {
        seq!['-'] + zero_padded(decimal((-n) as nat), if width > 0 { (width - 1) as nat } else { 0 })
    } else {
        zero_padded(decimal(n as nat), width)
    }
}

/// Unicode `White_Space`, the property `char::is_whitespace` tests.
pub open spec fn is_white_space(c: char) -> bool {
    let u = c as u32;
    (0x9 <= u <= 0xD) || u == 0x20 || u == 0x85 || u == 0xA0 || u == 0x1680 || (0x2000 <= u
        <= 0x200A) || u == 0x2028 || u == 0x2029 || u == 0x202F || u == 0x205F || u == 0x3000
}

/// The words of `s`: the maximal runs of non-white-space characters, in
/// order (what `str::split_whitespace` yields).
pub open spec fn split_words(s: Seq<char>) -> Seq<Seq<char>>
    decreases s.len(),
{
    if s.len() == 0 {
        Seq::empty()
    } else {
        let words = split_words(s.drop_last());
        let c = s.last();
        if is_white_space(c) {
            words
        } else if s.len() >= 2 && !is_white_space(s[s.len() - 2]) {
            words.update(words.len() - 1, words.last().push(c))
        } else {
            words.push(seq![c])
        }
    }
}

/// The word with its first character upper-cased.
pub open spec fn capitalize(w: Seq<char>) -> Seq<char> {
    if w.len() == 0 {
        w
    } else {
        uppercase_of(w[0]) + w.drop_first()
    }
}

/// The words joined by single spaces.
pub open spec fn join_words(words: Seq<Seq<char>>) -> Seq<char>
    decreases words.len(),
{
    if words.len() == 0 {
        Seq::empty()
    } else if words.len() == 1 {
        words[0]
    } else {
        join_words(words.drop_last()) + seq![' '] + words.last()
    }
}

/// Each word capitalized, joined by single spaces.
pub open spec fn title_text(s: Seq<char>) -> Seq<char> {
    join_words(split_words(s).map_values(|w: Seq<char>| capitalize(w)))
}

/// What `char::to_uppercase` yields for a character.
pub uninterp spec fn uppercase_of(c: char) -> Seq<char>;

/// `String::push`: appends one character.
#[verifier::external_body]
pub(crate) fn push_char(s: &mut String, c: char)
    ensures
        final(s)@ == old(s)@.push(c),
{
    s.push(c)
}

/// `char::to_uppercase`, collected into a string.
#[verifier::external_body]
pub(crate) fn char_to_uppercase(c: char) -> (s: String)
    ensures
        s@ == uppercase_of(c),
{
    c.to_uppercase().collect()
}

/// Whether `c` is Unicode white space.
pub fn is_whitespace(c: char) -> (b: bool)
    ensures
        b == is_white_space(c),
{
    let u = c as u32;
    (0x9 <= u && u <= 0xD) || u == 0x20 || u == 0x85 || u == 0xA0 || u == 0x1680 || (0x2000 <= u
        && u <= 0x200A) || u == 0x2028 || u == 0x2029 || u == 0x202F || u == 0x205F || u == 0x3000
}

/// The words of a prefix ending inside a word end with a non-empty word.
proof fn lemma_split_words_last(s: Seq<char>)
    requires
        s.len() > 0,
        !is_white_space(s.last()),
    ensures
        split_words(s).len() > 0,
        split_words(s).last().len() > 0,
    decreases s.len(),
{
    let words = split_words(s.drop_last());
    if s.len() >= 2 && !is_white_space(s[s.len() - 2]) {
        assert(s.drop_last().last() == s[s.len() - 2]);
        lemma_split_words_last(s.drop_last());
    }
}

/// Extending the last word extends the joined text by that character.
proof fn lemma_join_extend_last(words: Seq<Seq<char>>, c: char)
    requires
        words.len() > 0,
        words.last().len() > 0,
    ensures
        join_words(
            words.update(words.len() - 1, words.last().push(c)).map_values(
                |w: Seq<char>| capitalize(w),
            ),
        ) == join_words(words.map_values(|w: Seq<char>| capitalize(w))).push(c),
{
    let f = |w: Seq<char>| capitalize(w);
    let n = words.len();
    let updated = words.update(n - 1, words.last().push(c));
    let w = words.last();
    assert(capitalize(w.push(c)) =~= capitalize(w).push(c)) by {
        assert(w.push(c)[0] == w[0]);
        assert(w.push(c).drop_first() =~= w.drop_first().push(c));
    }
    if n == 1 {
        assert(updated.map_values(f)[0] == capitalize(w.push(c)));
        assert(words.map_values(f)[0] == capitalize(w));
    } else {
        assert(updated.map_values(f).drop_last() =~= words.map_values(f).drop_last());
        assert(updated.map_values(f).last() == capitalize(w.push(c)));
        assert(words.map_values(f).last() == capitalize(w));
    }
}

/// Appending a new word adds a separating space (when there are earlier
/// words) and the capitalized word.
proof fn lemma_join_push(words: Seq<Seq<char>>, c: char)
    ensures
        join_words(words.push(seq![c]).map_values(|w: Seq<char>| capitalize(w))) == if words.len()
            == 0 {
            uppercase_of(c)
        } else {
            join_words(words.map_values(|w: Seq<char>| capitalize(w))) + seq![' '] + uppercase_of(c)
        },
{
    let f = |w: Seq<char>| capitalize(w);
    let pushed = words.push(seq![c]).map_values(f);
    assert(capitalize(seq![c]) =~= uppercase_of(c)) by {
        assert(seq![c].drop_first() =~= Seq::<char>::empty());
    }
    if words.len() == 0 {
        assert(pushed[0] == capitalize(seq![c]));
    } else {
        assert(pushed.drop_last() =~= words.map_values(f));
        assert(pushed.last() == capitalize(seq![c]));
    }
}

/// Each white-space separated word of `input` with its first character
/// upper-cased, the words joined by single spaces.
pub fn title_case(input: &str) -> (out: String)
    ensures
        out@ == title_text(input@),
{
    let n = input.unicode_len();
    let mut out = String::new();
    let mut in_word = false;
    let mut any_word = false;
    let mut i: usize = 0;
    proof {
        assert(input@.take(0) =~= Seq::<char>::empty());
    }
    while i < n
        invariant
            n == input@.len(),
            0 <= i <= n,
            in_word == (i > 0 && !is_white_space(input@[i - 1])),
            any_word == (split_words(input@.take(i as int)).len() > 0),
            out@ == join_words(
                split_words(input@.take(i as int)).map_values(|w: Seq<char>| capitalize(w)),
            ),
        decreases n - i,
    {
        let c = input.get_char(i);
        let ghost pre = input@.take(i as int);
        let ghost cur = input@.take(i + 1);
        proof {
            assert(cur.drop_last() =~= pre);
            assert(cur.last() == c);
            if i > 0 {
                assert(cur[cur.len() - 2] == input@[i - 1]);
            }
        }
        if is_whitespace(c) {
            in_word = false;
        } else if in_word {
            proof {
                assert(pre.last() == input@[i - 1]);
                lemma_split_words_last(pre);
                lemma_join_extend_last(split_words(pre), c);
            }
            push_char(&mut out, c);
        } else {
            proof {
                lemma_join_push(split_words(pre), c);
            }
            if any_word {
                push_char(&mut out, ' ');
            }
            let upper = char_to_uppercase(c);
            out.append(upper.as_str());
            in_word = true;
            any_word = true;
            proof {
                assert(out@ =~= join_words(
                    split_words(cur).map_values(|w: Seq<char>| capitalize(w)),
                ));
            }
        }
        i = i + 1;
    }
    proof {
        assert(input@.take(n as int) =~= input@);
    }
    out
}

fn digit(d: u64) -> (c: char)
    requires
        d < 10,
    ensures
        c == digit_char(d as int),
{
    match d {
        0 => '0',
        1 => '1',
        2 => '2',
        3 => '3',
        4 => '4',
        5 => '5',
        6 => '6',
        7 => '7',
        8 => '8',
        _ => '9',
    }
}

/// Append the decimal representation of `n`.
pub fn push_decimal(s: &mut String, n: u64)
    ensures
        final(s)@ == old(s)@ + decimal(n as nat),
    decreases n,
{
    if n >= 10 {
        push_decimal(s, n / 10);
    }
    push_char(s, digit(n % 10));
    proof {
        if n < 10 {
            assert(decimal(n as nat) == seq![digit_char(n as int)]);
        }
        assert(old(s)@ + decimal((n / 10) as nat) + seq![digit_char((n % 10) as int)] =~= old(s)@
            + decimal((n / 10) as nat).push(digit_char((n % 10) as int)));
    }
}

/// The decimal representation of `n` as a string.
pub fn u64_to_string(n: u64) -> (s: String)
    ensures
        s@ == decimal(n as nat),
{
    let mut s = String::new();
    push_decimal(&mut s, n);
    proof {
        assert(Seq::<char>::empty() + decimal(n as nat) =~= decimal(n as nat));
    }
    s
}

/// Append `n` in decimal, zero-padded to `width` characters.
pub fn push_zero_padded(s: &mut String, n: u64, width: usize)
    ensures
        final(s)@ == old(s)@ + zero_padded(decimal(n as nat), width as nat),
{
    let mut digits = String::new();
    push_decimal(&mut digits, n);
    proof {
        assert(Seq::<char>::empty() + decimal(n as nat) =~= decimal(n as nat));
    }
    let len = digits.as_str().unicode_len();
    let mut k = len;
    let ghost start = s@;
    while k < width
        invariant
            len == decimal(n as nat).len(),
            len <= k <= width || (k == len && len >= width),
            s@ == start + Seq::new((k - len) as nat, |i: int| '0'),
        decreases width - k,
    {
        push_char(s, '0');
        proof {
            assert(Seq::new((k - len) as nat, |i: int| '0').push('0') =~= Seq::new(
                (k + 1 - len) as nat,
                |i: int| '0',
            ));
        }
        k = k + 1;
    }
    s.append(digits.as_str());
    proof {
        if len >= width {
            assert(Seq::new((k - len) as nat, |i: int| '0') =~= Seq::<char>::empty());
            assert(start + Seq::<char>::empty() + decimal(n as nat) =~= start + decimal(n as nat));
        } else {
            assert(start + Seq::new((width - len) as nat, |i: int| '0') + decimal(n as nat) =~= start
                + (Seq::new((width - len) as nat, |i: int| '0') + decimal(n as nat)));
        }
    }
}

/// Append the signed `n` zero-padded to `width` characters, sign included.
pub fn push_signed_zero_padded(s: &mut String, n: i64, width: usize)
    requires
        n > i64::MIN,
    ensures
        final(s)@ == old(s)@ + signed_zero_padded(n as int, width as nat),
{
    if n < 0 {
        push_char(s, '-');
        let w = if width > 0 { width - 1 } else { 0 };
        push_zero_padded(s, (-n) as u64, w);
        proof {
            assert(old(s)@.push('-') + zero_padded(decimal((-n) as nat), w as nat) =~= old(s)@ + (
            seq!['-'] + zero_padded(decimal((-n) as nat), w as nat)));
        }
    } else {
        push_zero_padded(s, n as u64, width);
    }
}

} // verus!
