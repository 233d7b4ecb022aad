//! Character-level text handling: turning strings into characters and back,
//! decimal numbers, line and word splitting, and AppleScript escaping.

use vstd::prelude::*;

verus! {

broadcast use vstd::string::group_string_axioms;

/// The characters of `s`, in order.
pub fn chars_of(s: &str) -> (r: Vec<char>)
    ensures
        r@ == s@,
{
    let mut r: Vec<char> = Vec::new();
    for c in it: s.chars()
        invariant
            r@ == it.seq().take(it.index() as int),
            it.seq() == s@,
    {
        r.push(c);
    }
    r
}

/// `String::from_iter` over characters: the string made of `chars`.
#[verifier::external_body]
pub(crate) fn string_of(chars: &Vec<char>) -> (r: String)
    ensures
        r@ == chars@,
{
    chars.iter().collect::<String>()
}

/// Appends the characters of `s` to `out`.
pub fn push_str(out: &mut Vec<char>, s: &str)
    ensures
        final(out)@ == old(out)@ + s@,
{
    let mut extra = chars_of(s);
    out.append(&mut extra);
}

/// The character of the decimal digit `d` (0 to 9).
pub open spec fn digit_char(d: int) -> char {
    seq!['0', '1', '2', '3', '4', '5', '6', '7', '8', '9'][d]
}

/// The decimal digits of `n`, most significant first, without leading zeros.
pub open spec fn decimal(n: nat) -> Seq<char>
    decreases n,
{
    if n < 10 {
        seq![digit_char(n as int)]
    } else {
        decimal(n / 10).push(digit_char((n % 10) as int))
    }
}

/// `v` in decimal, with a leading `-` when negative (Rust's `{}`).
pub open spec fn signed_decimal(v: int) -> Seq<char> {
    if v < 0 {
        seq!['-'] + decimal((-v) as nat)
    } else {
        decimal(v as nat)
    }
}

/// `n` in decimal, padded on the left with zeros to at least `width` characters.
pub open spec fn zero_padded(n: nat, width: nat) -> Seq<char> {
    let digits = decimal(n);
    if digits.len() < width {
        Seq::new((width - digits.len()) as nat, |i: int| '0') + digits
    } else {
        digits
    }
}

fn digit(d: u64) -> (c: char)
    requires
        d < 10,
    ensures
        c == digit_char(d as int),
{
    match d {
        0 => '0',
        1 => '1',
        2 => '2',
        3 => '3',
        4 => '4',
        5 => '5',
        6 => '6',
        7 => '7',
        8 => '8',
        _ => '9',
    }
}

/// Appends the decimal digits of `n` to `out`.
pub fn push_decimal(out: &mut Vec<char>, n: u64)
    ensures
        final(out)@ == old(out)@ + decimal(n as nat),
    decreases n,
{
    if n >= 10 {
        push_decimal(out, n / 10);
    }
    out.push(digit(n % 10));
    proof {
        if n >= 10 {
            assert(decimal(n as nat) == decimal((n / 10) as nat).push(digit_char((n % 10) as int)));
        }
    }
}

/// Appends `v` in decimal, with a leading `-` when negative.
pub fn push_signed_decimal(out: &mut Vec<char>, v: i64)
    ensures
        final(out)@ == old(out)@ + signed_decimal(v as int),
{
    if v < 0 {
        out.push('-');
        let magnitude: u64 = if v == i64::MIN {
            0x8000_0000_0000_0000u64
        } else {
            (-v) as u64
        };
        push_decimal(out, magnitude);
    } else {
        push_decimal(out, v as u64);
    }
}

/// Appends `n` (below 100) as exactly two digits, with a leading zero if needed.
pub fn push_two_digits(out: &mut Vec<char>, n: u64)
    requires
        n < 100,
    ensures
        final(out)@ == old(out)@ + zero_padded(n as nat, 2),
{
    if n < 10 {
        out.push('0');
        out.push(digit(n));
        proof {
            assert(zero_padded(n as nat, 2) =~= seq!['0', digit_char(n as int)]);
        }
    } else {
        out.push(digit(n / 10));
        out.push(digit(n % 10));
        proof {
            assert(decimal((n / 10) as nat) == seq![digit_char((n / 10) as int)]);
            assert(zero_padded(n as nat, 2) =~= seq![digit_char((n / 10) as int), digit_char((n % 10) as int)]);
        }
    }
}

/// Whether `c` has the Unicode `White_Space` property (`char::is_whitespace`).
pub open spec fn is_white(c: char) -> bool {
    let u = c as u32;
    ||| 0x9 <= u <= 0xd
    ||| u == 0x20
    ||| u == 0x85
    ||| u == 0xa0
    ||| u == 0x1680
    ||| 0x2000 <= u <= 0x200a
    ||| u == 0x2028
    ||| u == 0x2029
    ||| u == 0x202f
    ||| u == 0x205f
    ||| u == 0x3000
}

pub fn is_white_char(c: char) -> (r: bool)
    ensures
        r == is_white(c),
{
    let u = c as u32;
    (0x9 <= u && u <= 0xd) || u == 0x20 || u == 0x85 || u == 0xa0 || u == 0x1680 || (0x2000 <= u
        && u <= 0x200a) || u == 0x2028 || u == 0x2029 || u == 0x202f || u == 0x205f || u == 0x3000
}

/// The pieces of `s` between newline characters, in order; there is always at
/// least one piece.
pub open spec fn split_lines(s: Seq<char>) -> Seq<Seq<char>>
    decreases s.len(),
{
    if s.len() == 0 {
        seq![Seq::empty()]
    } else {
        let prev = split_lines(s.drop_last());
        if s.last() == '\n' {
            prev.push(Seq::empty())
        } else {
            prev.update(prev.len() - 1, prev.last().push(s.last()))
        }
    }
}

/// Whether `s` ends a line: it is empty or its last character is a newline.
pub open spec fn at_line_start(s: Seq<char>) -> bool {
    s.len() == 0 || s.last() == '\n'
}

/// The text of `lines`, each followed by a newline.
pub open spec fn joined_lines(lines: Seq<Seq<char>>) -> Seq<char>
    decreases lines.len(),
{
    if lines.len() == 0 {
        Seq::empty()
    } else {
        joined_lines(lines.drop_last()) + lines.last() + seq!['\n']
    }
}

/// Whether no line of `lines` holds a newline.
pub open spec fn single_lines(lines: Seq<Seq<char>>) -> bool {
    forall|k: int, j: int|
        0 <= k < lines.len() && 0 <= j < lines[k].len() ==> #[trigger] lines[k][j] != '\n'
}

proof fn lemma_split_lines_nonempty(s: Seq<char>)
    ensures
        split_lines(s).len() >= 1,
    decreases s.len(),
{
    if s.len() > 0 {
        lemma_split_lines_nonempty(s.drop_last());
    }
}

/// Text that begins after a line break splits into the lines before it and
/// the lines of the rest.
pub proof fn lemma_split_lines_at_break(a: Seq<char>, b: Seq<char>)
    requires
        at_line_start(a),
    ensures
        split_lines(a + b) == split_lines(a).drop_last() + split_lines(b),
    decreases b.len(),
{
    lemma_split_lines_nonempty(a);
    if b.len() == 0 {
        assert(a + b =~= a);
        if a.len() > 0 {
            assert(split_lines(a).last() =~= Seq::<char>::empty());
        }
        assert(split_lines(a).drop_last() + split_lines(b) =~= split_lines(a));
    } else {
        let init = b.drop_last();
        lemma_split_lines_at_break(a, init);
        lemma_split_lines_nonempty(init);
        assert((a + b).drop_last() =~= a + init);
        assert((a + b).last() == b.last());
        let front = split_lines(a).drop_last();
        let rest = split_lines(init);
        if b.last() == '\n' {
            assert((front + rest).push(Seq::<char>::empty()) =~= front + rest.push(
                Seq::<char>::empty(),
            ));
        } else {
            assert((front + rest).update(
                (front + rest).len() - 1,
                (front + rest).last().push(b.last()),
            ) =~= front + rest.update(rest.len() - 1, rest.last().push(b.last())));
        }
    }
}

proof fn lemma_split_single_line(line: Seq<char>)
    requires
        forall|j: int| 0 <= j < line.len() ==> line[j] != '\n',
    ensures
        split_lines(line) == seq![line],
    decreases line.len(),
{
    if line.len() == 0 {
        assert(line =~= Seq::<char>::empty());
    } else {
        let init = line.drop_last();
        lemma_split_single_line(init);
        assert(line.last() == line[line.len() - 1]);
        assert(init.push(line.last()) =~= line);
        assert(seq![init].update(0, init.push(line.last())) =~= seq![line]);
    }
}

/// Whole lines of text split back into those lines, followed by the empty
/// piece after the last newline.
pub proof fn lemma_split_joined_lines(lines: Seq<Seq<char>>)
    requires
        single_lines(lines),
    ensures
        split_lines(joined_lines(lines)) == lines.push(Seq::<char>::empty()),
        at_line_start(joined_lines(lines)),
    decreases lines.len(),
{
    if lines.len() == 0 {
        assert(split_lines(Seq::<char>::empty()) =~= seq![Seq::<char>::empty()]);
        assert(lines.push(Seq::<char>::empty()) =~= seq![Seq::<char>::empty()]);
    } else {
        let init = lines.drop_last();
        let line = lines.last();
        assert forall|k: int, j: int| 0 <= k < init.len() && 0 <= j < init[k].len() implies #[trigger] init[k][j] != '\n' by {
            assert(init[k] == lines[k]);
        }
        lemma_split_joined_lines(init);
        assert forall|j: int| 0 <= j < line.len() implies line[j] != '\n' by {
            assert(lines[lines.len() - 1][j] != '\n');
        }
        lemma_split_single_line(line);
        let tail = line + seq!['\n'];
        assert(tail.drop_last() =~= line);
        assert(tail.last() == '\n');
        assert(split_lines(tail) =~= seq![line, Seq::<char>::empty()]);
        assert(joined_lines(lines) =~= joined_lines(init) + tail);
        lemma_split_lines_at_break(joined_lines(init), tail);
        assert(init.push(Seq::<char>::empty()).drop_last() =~= init);
        assert(init + seq![line, Seq::<char>::empty()] =~= lines.push(Seq::<char>::empty()));
    }
}

/// The maximal runs of non-whitespace characters of `s`, in order
/// (`str::split_whitespace`).
pub open spec fn words(s: Seq<char>) -> Seq<Seq<char>>
    decreases s.len(),
{
    if s.len() == 0 {
        Seq::empty()
    } else {
        let prev = words(s.drop_last());
        let c = s.last();
        if is_white(c) {
            prev
        } else if s.len() >= 2 && !is_white(s[s.len() - 2]) {
            prev.update(prev.len() - 1, prev.last().push(c))
        } else {
            prev.push(seq![c])
        }
    }
}

/// Whether `s` begins with `prefix`.
pub open spec fn starts_with(s: Seq<char>, prefix: Seq<char>) -> bool {
    prefix.len() <= s.len() && s.take(prefix.len() as int) == prefix
}

/// Whether `pattern` occurs in `s` at position `i`.
pub open spec fn occurs_at(s: Seq<char>, pattern: Seq<char>, i: int) -> bool {
    0 <= i && i + pattern.len() <= s.len() && s.subrange(i, i + pattern.len()) == pattern
}

/// Whether `pattern` occurs anywhere in `s`.
pub open spec fn contains(s: Seq<char>, pattern: Seq<char>) -> bool {
    exists|i: int| occurs_at(s, pattern, i)
}


/// The character sequences held by a sequence of character vectors.
pub open spec fn views_of(v: Seq<Vec<char>>) -> Seq<Seq<char>> {
    v.map_values(|l: Vec<char>| l@)
}

/// The pieces of `text` between newline characters (see `split_lines`).
pub fn lines_of(text: &Vec<char>) -> (r: Vec<Vec<char>>)
    ensures
        views_of(r@) == split_lines(text@),
{
    let mut lines: Vec<Vec<char>> = Vec::new();
    let mut current: Vec<char> = Vec::new();
    for i in 0..text.len()
        invariant
            split_lines(text@.take(i as int)) == views_of(lines@).push(current@),
    {
        let c = text[i];
        let ghost before = views_of(lines@);
        let ghost cur = current@;
        proof {
            assert(text@.take(i + 1).drop_last() == text@.take(i as int));
            assert(text@.take(i + 1).last() == c);
        }
        if c == '\n' {
            lines.push(current);
            current = Vec::new();
            proof {
                assert(views_of(lines@) =~= before.push(cur));
            }
        } else {
            current.push(c);
            proof {
                assert(before.push(cur).update(before.len() as int, cur.push(c)) =~= before.push(
                    current@,
                ));
            }
        }
    }
    let ghost before = views_of(lines@);
    lines.push(current);
    proof {
        assert(text@.take(text@.len() as int) == text@);
        assert(views_of(lines@) =~= before.push(current@));
    }
    lines
}

/// The second whitespace-separated word of `line`, if it has one
/// (`line.split_whitespace().nth(1)`).
pub fn second_word(line: &Vec<char>) -> (r: Option<Vec<char>>)
    ensures
        r is Some <==> words(line@).len() >= 2,
        r matches Some(w) ==> w@ == words(line@)[1],
{
    let mut count: usize = 0;
    let mut second: Vec<char> = Vec::new();
    let mut prev_white = true;
    for i in 0..line.len()
        invariant
            count == if words(line@.take(i as int)).len() < 3 {
                words(line@.take(i as int)).len()
            } else {
                3
            },
            count >= 2 ==> second@ == words(line@.take(i as int))[1],
            prev_white == (i == 0 || is_white(line@[i - 1])),
            count >= 1 ==> !prev_white || words(line@.take(i as int)).len() >= 1,
            !prev_white ==> words(line@.take(i as int)).len() >= 1,
    {
        let c = line[i];
        let ghost t = line@.take(i as int);
        let ghost t2 = line@.take(i + 1);
        proof {
            assert(t2.drop_last() == t);
            assert(t2.last() == c);
            if i >= 1 {
                assert(t2[t2.len() - 2] == line@[i - 1]);
            }
        }
        let white = is_white_char(c);
        if white {
            prev_white = true;
        } else if prev_white {
            if count < 3 {
                count = count + 1;
            }
            if count == 2 {
                second = Vec::new();
                second.push(c);
                proof {
                    assert(second@ =~= seq![c]);
                }
            }
            prev_white = false;
        } else {
            if count == 2 {
                second.push(c);
            }
        }
    }
    proof {
        assert(line@.take(line@.len() as int) == line@);
    }
    if count >= 2 {
        Some(second)
    } else {
        None
    }
}

/// Whether `s` begins with `prefix`.
pub fn has_prefix(s: &Vec<char>, prefix: &Vec<char>) -> (r: bool)
    ensures
        r == starts_with(s@, prefix@),
{
    if prefix.len() > s.len() {
        return false;
    }
    let mut i: usize = 0;
    while i < prefix.len()
        invariant
            prefix.len() <= s.len(),
            i <= prefix.len(),
            forall|j: int| 0 <= j < i ==> s@[j] == prefix@[j],
        decreases prefix.len() - i,
    {
        if s[i] != prefix[i] {
            proof {
                assert(s@.take(prefix.len() as int)[i as int] != prefix@[i as int]);
            }
            return false;
        }
        i += 1;
    }
    proof {
        assert(s@.take(prefix.len() as int) =~= prefix@);
    }
    true
}

fn occurs_at_exec(s: &Vec<char>, pattern: &Vec<char>, at: usize) -> (r: bool)
    requires
        at + pattern.len() <= s.len(),
    ensures
        r == occurs_at(s@, pattern@, at as int),
{
    let mut j: usize = 0;
    while j < pattern.len()
        invariant
            at + pattern.len() <= s.len(),
            j <= pattern.len(),
            forall|k: int| 0 <= k < j ==> s@[at + k] == pattern@[k],
        decreases pattern.len() - j,
    {
        if s[at + j] != pattern[j] {
            proof {
                assert(s@.subrange(at as int, at + pattern.len())[j as int] != pattern@[j as int]);
            }
            return false;
        }
        j += 1;
    }
    proof {
        assert(s@.subrange(at as int, at + pattern.len()) =~= pattern@);
    }
    true
}

/// Whether `pattern` occurs anywhere in `s`.
pub fn has_infix(s: &Vec<char>, pattern: &Vec<char>) -> (r: bool)
    ensures
        r == contains(s@, pattern@),
{
    if pattern.len() > s.len() {
        return false;
    }
    if pattern.len() == 0 {
        proof {
            assert(s@.subrange(0, 0) =~= pattern@);
            assert(occurs_at(s@, pattern@, 0));
        }
        return true;
    }
    let last = s.len() - pattern.len();
    let mut at: usize = 0;
    while at <= last
        invariant
            last + pattern.len() == s.len(),
            pattern.len() >= 1,
            at <= last + 1,
            forall|k: int| 0 <= k < at ==> !occurs_at(s@, pattern@, k),
        decreases last + 1 - at,
    {
        if occurs_at_exec(s, pattern, at) {
            return true;
        }
        at += 1;
    }
    false
}

/// The characters of `c` as they stand inside an AppleScript string literal.
pub open spec fn escaped_char(c: char) -> Seq<char> {
    if c == '\\' {
        seq!['\\', '\\']
    } else if c == '"' {
        seq!['\\', '"']
    } else {
        seq![c]
    }
}

/// `s` with each backslash and double quote preceded by a backslash.
pub open spec fn escaped(s: Seq<char>) -> Seq<char>
    decreases s.len(),
{
    if s.len() == 0 {
        Seq::empty()
    } else {
        escaped(s.drop_last()) + escaped_char(s.last())
    }
}

/// Escapes backslashes and double quotes so that `value` can stand inside an
/// AppleScript string literal.
pub fn escape_applescript(value: &str) -> (r: String)
    ensures
        r@ == escaped(value@),
{
    let chars = chars_of(value);
    let mut out: Vec<char> = Vec::new();
    for i in 0..chars.len()
        invariant
            chars@ == value@,
            out@ == escaped(chars@.take(i as int)),
    {
        let c = chars[i];
        proof {
            assert(chars@.take(i + 1).drop_last() == chars@.take(i as int));
        }
        if c == '\\' {
            out.push('\\');
            out.push('\\');
        } else if c == '"' {
            out.push('\\');
            out.push('"');
        } else {
            out.push(c);
        }
        proof {
            assert(out@ =~= escaped(chars@.take(i as int)) + escaped_char(c));
        }
    }
    proof {
        assert(chars@.take(chars@.len() as int) == chars@);
    }
    string_of(&out)
}

/// The text of `error`, as its `Display` implementation writes it.
pub fn error_string<T: core::fmt::Display>(error: T) -> (r: String)
    ensures
        vstd::string::to_string_from_display_ensures::<T>(&error, r),
{
    error.to_string()
}


/// `s` read as the inside of an AppleScript string literal: a backslash takes
/// the character after it literally.
pub open spec fn unescaped(s: Seq<char>) -> Seq<char>
    decreases s.len(),
{
    if s.len() == 0 {
        Seq::empty()
    } else if s[0] == '\\' && s.len() >= 2 {
        seq![s[1]] + unescaped(s.skip(2))
    } else {
        seq![s[0]] + unescaped(s.skip(1))
    }
}

proof fn lemma_escaped_concat(a: Seq<char>, b: Seq<char>)
    ensures
        escaped(a + b) == escaped(a) + escaped(b),
    decreases b.len(),
{
    if b.len() == 0 {
        assert(a + b =~= a);
        assert(escaped(a) + escaped(b) =~= escaped(a));
    } else {
        lemma_escaped_concat(a, b.drop_last());
        assert((a + b).drop_last() =~= a + b.drop_last());
        assert((a + b).last() == b.last());
        assert(escaped(a + b) =~= escaped(a) + escaped(b));
    }
}

/// Reading the escaped text back as an AppleScript string literal gives the
/// text that was escaped.
pub proof fn law_escaping_is_undone(s: Seq<char>)
    ensures
        unescaped(escaped(s)) == s,
    decreases s.len(),
{
    if s.len() > 0 {
        let c = s[0];
        let t = s.skip(1);
        assert(s =~= seq![c] + t);
        lemma_escaped_concat(seq![c], t);
        assert(seq![c].drop_last() =~= Seq::<char>::empty());
        assert(seq![c].last() == c);
        assert(escaped(Seq::<char>::empty()) =~= Seq::<char>::empty());
        assert(escaped(seq![c]) == escaped(seq![c].drop_last()) + escaped_char(c));
        assert(escaped(seq![c]) =~= escaped_char(c));
        law_escaping_is_undone(t);
        let e = escaped_char(c) + escaped(t);
        if c == '\\' || c == '"' {
            assert(e.skip(2) =~= escaped(t));
        } else {
            assert(e.skip(1) =~= escaped(t));
        }
        assert(unescaped(e) =~= seq![c] + t);
    }
}

} // verus!
