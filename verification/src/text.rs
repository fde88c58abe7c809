//! Building and taking apart text.

use vstd::prelude::*;
use vstd::string::*;

verus! {

/// The digit for `d`, lower case above nine.
pub open spec fn digit(d: nat) -> char {
    if d < 10 {
        (48 + d) as char
    } else {
        (87 + d) as char
    }
}

/// `n` in decimal, without leading zeros.
pub open spec fn decimal(n: nat) -> Seq<char>
    decreases n,
{
    if n < 10 {
        seq![digit(n)]
    } else {
        decimal(n / 10).push(digit(n % 10))
    }
}

/// `n` in hexadecimal, without leading zeros.
pub open spec fn hex(n: nat) -> Seq<char>
    decreases n,
{
    if n < 16 {
        seq![digit(n)]
    } else {
        hex(n / 16).push(digit(n % 16))
    }
}

/// The last `width` hexadecimal digits of `n`, leading zeros kept.
pub open spec fn hex_padded(n: nat, width: nat) -> Seq<char>
    decreases width,
{
    if width == 0 {
        Seq::empty()
    } else {
        hex_padded(n / 16, (width - 1) as nat).push(digit(n % 16))
    }
}

/// Text that may be absent, as its characters.
pub open spec fn text_of(s: Option<String>) -> Option<Seq<char>> {
    match s {
        Some(s) => Some(s@),
        None => None,
    }
}

/// A copy of text that may be absent.
pub fn clone_text(s: &Option<String>) -> (r: Option<String>)
    ensures
        text_of(r) == text_of(*s),
{
    match s {
        Some(s) => Some(s.clone()),
        None => None,
    }
}

/// `std::string::String::push`: the string grows by the character, at its end.
pub assume_specification[ String::push ](s: &mut String, c: char)
    ensures
        final(s)@ == old(s)@.push(c),
;

/// The character for one hexadecimal digit.
pub fn digit_char(d: u8) -> (c: char)
    requires
        d < 16,
    ensures
        c == digit(d as nat),
{
    if d < 10 {
        (48 + d) as char
    } else {
        (87 + d) as char
    }
}

/// Append `n` in decimal.
pub fn push_decimal(out: &mut String, n: u64)
    ensures
        final(out)@ == old(out)@ + decimal(n as nat),
    decreases n,
{
    if n >= 10 {
        push_decimal(out, n / 10);
    }
    out.push(digit_char((n % 10) as u8));
    assert(out@ =~= old(out)@ + decimal(n as nat));
}

/// Append `n` in hexadecimal.
pub fn push_hex(out: &mut String, n: u64)
    ensures
        final(out)@ == old(out)@ + hex(n as nat),
    decreases n,
{
    if n >= 16 {
        push_hex(out, n / 16);
    }
    out.push(digit_char((n % 16) as u8));
    assert(out@ =~= old(out)@ + hex(n as nat));
}

/// Append the last `width` hexadecimal digits of `n`.
pub fn push_hex_padded(out: &mut String, n: u32, width: u32)
    ensures
        final(out)@ == old(out)@ + hex_padded(n as nat, width as nat),
    decreases width,
{
    if width > 0 {
        push_hex_padded(out, n / 16, width - 1);
        out.push(digit_char((n % 16) as u8));
    }
    assert(out@ =~= old(out)@ + hex_padded(n as nat, width as nat));
}

/// `n` in octal, without leading zeros.
pub open spec fn octal(n: nat) -> Seq<char>
    decreases n,
{
    if n < 8 {
        seq![digit(n)]
    } else {
        octal(n / 8).push(digit(n % 8))
    }
}

/// Append `n` in octal.
pub fn push_octal(out: &mut String, n: u32)
    ensures
        final(out)@ == old(out)@ + octal(n as nat),
    decreases n,
{
    if n >= 8 {
        push_octal(out, n / 8);
    }
    out.push(digit_char((n % 8) as u8));
    assert(out@ =~= old(out)@ + octal(n as nat));
}

/// Whether a character has the Unicode White_Space property.
pub open spec fn whitespace(c: char) -> bool {
    let n = c as u32;
    ||| 0x09 <= n <= 0x0D
    ||| n == 0x20
    ||| n == 0x85
    ||| n == 0xA0
    ||| n == 0x1680
    ||| 0x2000 <= n <= 0x200A
    ||| n == 0x2028
    ||| n == 0x2029
    ||| n == 0x202F
    ||| n == 0x205F
    ||| n == 0x3000
}

/// Whether a character has the Unicode White_Space property.
fn is_whitespace(c: char) -> (r: bool)
    ensures
        r == whitespace(c),
{
    let n: u32 = c as u32;
    (0x09 <= n && n <= 0x0D) || n == 0x20 || n == 0x85 || n == 0xA0 || n == 0x1680 || (0x2000 <= n
        && n <= 0x200A) || n == 0x2028 || n == 0x2029 || n == 0x202F || n == 0x205F || n == 0x3000
}

/// How many white-space characters stand at the start of `s`.
pub open spec fn leading(s: Seq<char>) -> nat
    decreases s.len(),
{
    if s.len() > 0 && whitespace(s[0]) {
        1 + leading(s.skip(1))
    } else {
        0
    }
}

/// `s` without the white space at its end.
pub open spec fn trimmed_end(s: Seq<char>) -> Seq<char>
    decreases s.len(),
{
    if s.len() > 0 && whitespace(s.last()) {
        trimmed_end(s.drop_last())
    } else {
        s
    }
}

/// `s` without the white space at either end.
pub open spec fn trimmed(s: Seq<char>) -> Seq<char> {
    trimmed_end(s.skip(leading(s) as int))
}

proof fn lemma_leading(s: Seq<char>, n: int)
    requires
        0 <= n <= s.len(),
        forall|i: int| 0 <= i < n ==> whitespace(#[trigger] s[i]),
        n < s.len() ==> !whitespace(s[n]),
    ensures
        leading(s) == n,
    decreases n,
{
    if n > 0 {
        let rest = s.skip(1);
        assert(whitespace(s[0]));
        assert forall|i: int| 0 <= i < n - 1 implies whitespace(#[trigger] rest[i]) by {
            assert(rest[i] == s[i + 1]);
        }
        lemma_leading(rest, n - 1);
    }
}

/// `s` without the white space at either end.
pub fn trim(s: &str) -> (r: String)
    ensures
        r@ == trimmed(s@),
{
    let len: usize = s.unicode_len();
    let mut start: usize = 0;
    while start < len && is_whitespace(s.get_char(start))
        invariant
            len == s@.len(),
            start <= len,
            forall|i: int| 0 <= i < start ==> whitespace(#[trigger] s@[i]),
        decreases len - start,
    {
        start = start + 1;
    }
    proof {
        lemma_leading(s@, start as int);
    }
    let ghost body = s@.skip(start as int);
    let mut end: usize = len;
    assert(body.take(end - start) =~= body);
    while end > start && is_whitespace(s.get_char(end - 1))
        invariant
            start <= end <= len,
            len == s@.len(),
            body == s@.skip(start as int),
            trimmed_end(body) == trimmed_end(body.take(end - start)),
        decreases end - start,
    {
        assert(body.take(end - start).drop_last() =~= body.take(end - start - 1));
        assert(body.take(end - start).last() == s@[end - 1]);
        end = end - 1;
    }
    proof {
        let kept = body.take(end - start);
        if end > start {
            assert(kept.last() == s@[end - 1]);
        }
        assert(kept =~= s@.subrange(start as int, end as int));
    }
    s.substring_char(start, end).to_owned()
}

/// The parts of `s` between the `c`s.
pub open spec fn split(s: Seq<char>, c: char) -> Seq<Seq<char>>
    decreases s.len(),
{
    if s.len() == 0 {
        seq![Seq::empty()]
    } else {
        let before = split(s.drop_last(), c);
        if s.last() == c {
            before.push(Seq::empty())
        } else {
            before.update(before.len() - 1, before.last().push(s.last()))
        }
    }
}

/// Texts as their characters.
pub open spec fn texts(v: Seq<String>) -> Seq<Seq<char>> {
    v.map_values(|s: String| s@)
}

proof fn lemma_split_not_empty(s: Seq<char>, c: char)
    ensures
        split(s, c).len() > 0,
    decreases s.len(),
{
    if s.len() > 0 {
        lemma_split_not_empty(s.drop_last(), c);
    }
}

/// The parts of `s` between the `c`s.
pub fn split_on(s: &str, c: char) -> (r: Vec<String>)
    ensures
        texts(r@) == split(s@, c),
{
    let len: usize = s.unicode_len();
    let mut done: Vec<String> = Vec::new();
    let mut part: String = String::new();
    assert(s@.take(0) =~= Seq::empty());
    assert(texts(done@).push(part@) =~= split(s@.take(0), c));
    for i in 0..len
        invariant
            len == s@.len(),
            texts(done@).push(part@) == split(s@.take(i as int), c),
    {
        let ghost upto = s@.take(i + 1);
        let ghost before = split(s@.take(i as int), c);
        assert(upto.drop_last() =~= s@.take(i as int));
        let ch = s.get_char(i);
        if ch == c {
            let ghost held = texts(done@);
            let ghost last = part@;
            done.push(part);
            part = String::new();
            assert(texts(done@) =~= held.push(last));
        } else {
            let ghost last = part@;
            part.push(ch);
            assert(texts(done@).push(part@) =~= before.update(before.len() - 1, last.push(ch)));
        }
    }
    assert(s@.take(len as int) =~= s@);
    let ghost held = texts(done@);
    let ghost last = part@;
    done.push(part);
    assert(texts(done@) =~= held.push(last));
    done
}

/// `parts` with a `c` between each two.
pub open spec fn joined(parts: Seq<Seq<char>>, c: char) -> Seq<char>
    decreases parts.len(),
{
    if parts.len() == 0 {
        Seq::empty()
    } else if parts.len() == 1 {
        parts[0]
    } else {
        joined(parts.drop_last(), c).push(c) + parts.last()
    }
}

/// Parts that hold no `c` are what joined text splits into again.
pub proof fn split_undoes_joining(parts: Seq<Seq<char>>, c: char)
    requires
        parts.len() > 0,
        forall|i: int| 0 <= i < parts.len() ==> !(#[trigger] parts[i]).contains(c),
    ensures
        split(joined(parts, c), c) == parts,
    decreases parts.len(),
{
    if parts.len() == 1 {
        lemma_split_none(parts[0], c);
        assert(parts =~= seq![parts[0]]);
    } else {
        let init = parts.drop_last();
        assert forall|i: int| 0 <= i < init.len() implies !(#[trigger] init[i]).contains(c) by {
            assert(init[i] == parts[i]);
        }
        split_undoes_joining(init, c);
        assert(!parts[parts.len() - 1].contains(c));
        lemma_split_last(joined(init, c), c, parts.last());
        assert(parts =~= init.push(parts.last()));
    }
}

/// A `c` with none behind it adds what stands behind it as a last part.
proof fn lemma_split_last(a: Seq<char>, c: char, b: Seq<char>)
    requires
        !b.contains(c),
    ensures
        split(a.push(c) + b, c) == split(a, c).push(b),
    decreases b.len(),
{
    let whole = a.push(c) + b;
    if b.len() == 0 {
        assert(whole =~= a.push(c));
        assert(a.push(c).drop_last() =~= a);
        assert(b =~= Seq::empty());
    } else {
        let init = b.drop_last();
        assert(!init.contains(c)) by {
            if init.contains(c) {
                let i = choose|i: int| 0 <= i < init.len() && init[i] == c;
                assert(b[i] == c);
            }
        }
        assert(b[b.len() - 1] != c);
        lemma_split_last(a, c, init);
        assert(whole.drop_last() =~= a.push(c) + init);
        assert(init.push(b.last()) =~= b);
        assert(split(whole, c) =~= split(a, c).push(b));
    }
}

/// Text without a `c` is one part.
pub proof fn lemma_split_none(a: Seq<char>, c: char)
    requires
        !a.contains(c),
    ensures
        split(a, c) == seq![a],
    decreases a.len(),
{
    if a.len() > 0 {
        let init = a.drop_last();
        assert(!init.contains(c)) by {
            if init.contains(c) {
                let i = choose|i: int| 0 <= i < init.len() && init[i] == c;
                assert(a[i] == c);
            }
        }
        assert(a[a.len() - 1] != c);
        lemma_split_none(init, c);
        assert(init.push(a.last()) =~= a);
        assert(split(a, c) =~= seq![a]);
    } else {
        assert(a =~= Seq::empty());
    }
}

/// Where the first `c` from `from` on stands.
pub open spec fn first_at(s: Seq<char>, c: char, from: int) -> Option<int>
    decreases s.len() - from,
{
    if from < 0 || from >= s.len() {
        None
    } else if s[from] == c {
        Some(from)
    } else {
        first_at(s, c, from + 1)
    }
}

/// Where the first `c` stands.
pub fn position(s: &str, c: char) -> (r: Option<usize>)
    ensures
        match r {
            Some(i) => first_at(s@, c, 0) == Some(i as int) && i < s@.len(),
            None => first_at(s@, c, 0) is None,
        },
{
    let len: usize = s.unicode_len();
    for i in 0..len
        invariant
            len == s@.len(),
            first_at(s@, c, 0) == first_at(s@, c, i as int),
    {
        if s.get_char(i) == c {
            return Some(i);
        }
    }
    None
}

/// Whether a character would break up a line of tab-separated fields.
pub open spec fn breaks(c: char) -> bool {
    c == '\t' || c == '\n'
}

/// `s` with a blank in place of every character that would break up the line.
pub open spec fn flat(s: Seq<char>) -> Seq<char> {
    s.map_values(
        |c: char|
            if breaks(c) {
                ' '
            } else {
                c
            },
    )
}

/// Append `s` with a blank in place of every tab and newline.
pub fn push_flat(out: &mut String, s: &str)
    ensures
        final(out)@ == old(out)@ + flat(s@),
{
    let ghost start = out@;
    let len: usize = s.unicode_len();
    for i in 0..len
        invariant
            len == s@.len(),
            out@ == start + flat(s@).take(i as int),
    {
        let c = s.get_char(i);
        out.push(
            if c == '\t' || c == '\n' {
                ' '
            } else {
                c
            },
        );
        assert(out@ =~= start + flat(s@).take(i + 1));
    }
    assert(flat(s@).take(len as int) =~= flat(s@));
}

/// What stands between separators holds nothing but the separator and what the parts
/// hold.
pub proof fn lemma_joined_without(parts: Seq<Seq<char>>, sep: char, c: char)
    requires
        c != sep,
        forall|i: int| 0 <= i < parts.len() ==> !(#[trigger] parts[i]).contains(c),
    ensures
        !joined(parts, sep).contains(c),
    decreases parts.len(),
{
    if parts.len() > 0 {
        let init = parts.drop_last();
        assert forall|i: int| 0 <= i < init.len() implies !(#[trigger] init[i]).contains(c) by {
            assert(init[i] == parts[i]);
        }
        lemma_joined_without(init, sep, c);
        let all = joined(parts, sep);
        let last = parts.last();
        assert(!last.contains(c)) by {
            assert(!parts[parts.len() - 1].contains(c));
        }
        if all.contains(c) {
            let i = choose|i: int| 0 <= i < all.len() && all[i] == c;
            let n = all.len() - last.len();
            if i >= n {
                assert(last[i - n] == c);
            } else if i < n - 1 {
                assert(joined(init, sep)[i] == c);
            }
        }
    }
}

/// Decimal digits only.
pub proof fn lemma_decimal_digits(n: nat)
    ensures
        forall|i: int| 0 <= i < decimal(n).len() ==> '0' <= #[trigger] decimal(n)[i] <= '9',
        decimal(n).len() > 0,
    decreases n,
{
    if n >= 10 {
        lemma_decimal_digits(n / 10);
    }
}

/// What a digit stands for.
pub open spec fn digit_value(c: char) -> nat {
    if '0' <= c <= '9' {
        (c as int - 48) as nat
    } else if 'a' <= c <= 'f' {
        (c as int - 87) as nat
    } else {
        0
    }
}

/// The number that digits stand for in a base, the last one counting for itself.
pub open spec fn value_of(s: Seq<char>, base: nat) -> nat
    decreases s.len(),
{
    if s.len() == 0 {
        0
    } else {
        value_of(s.drop_last(), base) * base + digit_value(s.last())
    }
}

/// Numbers read back as what they were: in decimal, in hexadecimal and in octal, and
/// without a zero in front unless they are one digit long.
pub proof fn numbers_read_back(n: nat)
    ensures
        value_of(decimal(n), 10) == n,
        value_of(hex(n), 16) == n,
        value_of(octal(n), 8) == n,
        decimal(n).len() > 0,
        decimal(n).len() > 1 ==> decimal(n)[0] != '0',
        hex(n).len() > 1 ==> hex(n)[0] != '0',
        octal(n).len() > 1 ==> octal(n)[0] != '0',
    decreases n,
{
    lemma_value_of_push(seq![], digit(n), 10);
    lemma_value_of_push(seq![], digit(n), 16);
    lemma_value_of_push(seq![], digit(n), 8);
    assert(Seq::<char>::empty().push(digit(n)) =~= seq![digit(n)]);
    if n >= 8 {
        lemma_numbers_start(n);
        if n >= 10 {
            numbers_read_back(n / 10);
            lemma_value_of_push(decimal(n / 10), digit(n % 10), 10);
        }
        if n >= 16 {
            numbers_read_back(n / 16);
            lemma_value_of_push(hex(n / 16), digit(n % 16), 16);
        }
        numbers_read_back(n / 8);
        lemma_value_of_push(octal(n / 8), digit(n % 8), 8);
    }
}

/// Padded hexadecimal has just so many digits, and they stand for the number's low end.
pub proof fn padded_hexadecimal_reads_back(n: nat, width: nat)
    ensures
        hex_padded(n, width).len() == width,
        n < vstd::arithmetic::power::pow(16, width) ==> value_of(hex_padded(n, width), 16) == n,
    decreases width,
{
    reveal(vstd::arithmetic::power::pow);
    if width > 0 {
        let rest = hex_padded(n / 16, (width - 1) as nat);
        padded_hexadecimal_reads_back(n / 16, (width - 1) as nat);
        lemma_value_of_push(rest, digit(n % 16), 16);
    }
}

/// Trimming takes white space off both ends and nothing else: what is left stands in the
/// text as it was, neither starts nor ends with white space, and everything around it is
/// white space.
pub proof fn trimming_takes_only_white_space(s: Seq<char>)
    ensures
        exists|a: int, b: int|
            {
                &&& 0 <= a <= b <= s.len()
                &&& trimmed(s) == #[trigger] s.subrange(a, b)
                &&& forall|i: int| 0 <= i < a ==> whitespace(#[trigger] s[i])
                &&& forall|i: int| b <= i < s.len() ==> whitespace(#[trigger] s[i])
                &&& a < b ==> !whitespace(s[a]) && !whitespace(s[b - 1])
            },
{
    lemma_leading_is_white(s);
    let a = leading(s) as int;
    let body = s.skip(a);
    lemma_trimmed_end_is_white(body);
    let b = a + trimmed_end(body).len();
    assert(trimmed(s) =~= s.subrange(a, b));
    assert forall|i: int| b <= i < s.len() implies whitespace(#[trigger] s[i]) by {
        assert(body[i - a] == s[i]);
    }
    if a < b {
        assert(trimmed_end(body).last() == s[b - 1]);
    }
}

/// Splitting loses nothing: the parts hold no separator, and with one between each two
/// they are the text again.
pub proof fn joining_undoes_splitting(s: Seq<char>, c: char)
    ensures
        split(s, c).len() > 0,
        joined(split(s, c), c) == s,
        forall|i: int| 0 <= i < split(s, c).len() ==> !(#[trigger] split(s, c)[i]).contains(c),
    decreases s.len(),
{
    if s.len() == 0 {
        assert(joined(split(s, c), c) =~= s);
    } else {
        let init = s.drop_last();
        let before = split(init, c);
        joining_undoes_splitting(init, c);
        let after = split(s, c);
        if s.last() == c {
            assert(after.drop_last() =~= before);
            assert(joined(after, c) =~= init.push(c));
            assert(init.push(c) =~= s);
        } else {
            let n = before.len() - 1;
            let longer = before.last().push(s.last());
            assert(after.drop_last() =~= before.drop_last());
            assert(after.last() == longer);
            assert(joined(after, c) =~= joined(before, c).push(s.last()));
            assert(init.push(s.last()) =~= s);
            assert forall|i: int| 0 <= i < after.len() implies !(#[trigger] after[i]).contains(
                c,
            ) by {
                if i == n {
                    assert(!before[n].contains(c));
                    if longer.contains(c) {
                        let k = choose|k: int| 0 <= k < longer.len() && longer[k] == c;
                        assert(before[n][k] == c);
                    }
                } else {
                    assert(after[i] == before[i]);
                }
            }
        }
    }
}

/// The first place is one where the character stands, with none in front; there is none
/// only if it stands nowhere.
pub proof fn the_first_place_is_first(s: Seq<char>, c: char, from: int)
    requires
        0 <= from,
    ensures
        match first_at(s, c, from) {
            Some(i) => from <= i < s.len() && s[i] == c && forall|j: int|
                from <= j < i ==> #[trigger] s[j] != c,
            None => forall|j: int| from <= j < s.len() ==> #[trigger] s[j] != c,
        },
    decreases s.len() - from,
{
    if from < s.len() && s[from] != c {
        the_first_place_is_first(s, c, from + 1);
    }
}

/// Flattened text is as long as it was, and differs only where a tab or a newline stood:
/// a blank stands there.
pub proof fn flattening_changes_only_breaks(s: Seq<char>)
    ensures
        flat(s).len() == s.len(),
        forall|i: int|
            0 <= i < s.len() ==> #[trigger] flat(s)[i] == (if s[i] == '\t' || s[i] == '\n' {
                ' '
            } else {
                s[i]
            }),
{
}

proof fn lemma_value_of_push(s: Seq<char>, c: char, base: nat)
    ensures
        value_of(s.push(c), base) == value_of(s, base) * base + digit_value(c),
{
    assert(s.push(c).drop_last() =~= s);
}

/// Longer numbers start as their shorter parts do.
proof fn lemma_numbers_start(n: nat)
    ensures
        decimal(n).len() > 0,
        hex(n).len() > 0,
        octal(n).len() > 0,
        decimal(n).len() > 1 ==> decimal(n)[0] != '0',
        hex(n).len() > 1 ==> hex(n)[0] != '0',
        octal(n).len() > 1 ==> octal(n)[0] != '0',
        n > 0 ==> decimal(n)[0] != '0' && hex(n)[0] != '0' && octal(n)[0] != '0',
    decreases n,
{
    if n >= 10 {
        lemma_numbers_start(n / 10);
    }
    if n >= 16 {
        lemma_numbers_start(n / 16);
    }
    if n >= 8 {
        lemma_numbers_start(n / 8);
    }
}

proof fn lemma_leading_is_white(s: Seq<char>)
    ensures
        leading(s) <= s.len(),
        forall|i: int| 0 <= i < leading(s) ==> whitespace(#[trigger] s[i]),
        leading(s) < s.len() ==> !whitespace(s[leading(s) as int]),
    decreases s.len(),
{
    if s.len() > 0 && whitespace(s[0]) {
        let rest = s.skip(1);
        lemma_leading_is_white(rest);
        assert forall|i: int| 0 <= i < leading(s) implies whitespace(#[trigger] s[i]) by {
            if i > 0 {
                assert(rest[i - 1] == s[i]);
            }
        }
        if leading(s) < s.len() {
            assert(rest[leading(rest) as int] == s[leading(s) as int]);
        }
    }
}

proof fn lemma_trimmed_end_is_white(s: Seq<char>)
    ensures
        trimmed_end(s).len() <= s.len(),
        trimmed_end(s) == s.take(trimmed_end(s).len() as int),
        forall|i: int| trimmed_end(s).len() <= i < s.len() ==> whitespace(#[trigger] s[i]),
        trimmed_end(s).len() > 0 ==> !whitespace(trimmed_end(s).last()),
    decreases s.len(),
{
    if s.len() > 0 && whitespace(s.last()) {
        let init = s.drop_last();
        lemma_trimmed_end_is_white(init);
        let n = trimmed_end(s).len() as int;
        assert(init.take(n) =~= s.take(n));
        assert forall|i: int| n <= i < s.len() implies whitespace(#[trigger] s[i]) by {
            if i < init.len() {
                assert(init[i] == s[i]);
            }
        }
    } else {
        assert(s.take(s.len() as int) =~= s);
    }
}

} // verus!
