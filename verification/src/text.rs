//! Text as the rest of the library reads it: white space, words, separators,
//! substrings, order and decimal numerals, over sequences of characters.
use crate::order::Order;
use vstd::prelude::*;

verus! {

/// The characters with the Unicode property `White_Space`.
pub open spec fn white_space(c: char) -> bool {
    let u = c as u32;
    ||| 0x9 <= u <= 0xd
    ||| u == 0x20
    ||| u == 0x85
    ||| u == 0xa0
    ||| u == 0x1680
    ||| 0x2000 <= u <= 0x200a
    ||| u == 0x2028
    ||| u == 0x2029
    ||| u == 0x202f
    ||| u == 0x205f
    ||| u == 0x3000
}

/// `s` without the white space it starts with.
pub open spec fn trim_start(s: Seq<char>) -> Seq<char>
    decreases s.len(),
{
    if s.len() > 0 && white_space(s[0]) {
        trim_start(s.drop_first())
    } else {
        s
    }
}

/// `s` without the white space it ends with.
pub open spec fn trim_end(s: Seq<char>) -> Seq<char>
    decreases s.len(),
{
    if s.len() > 0 && white_space(s.last()) {
        trim_end(s.drop_last())
    } else {
        s
    }
}

/// `s` without the white space around it.
pub open spec fn trimmed(s: Seq<char>) -> Seq<char> {
    trim_end(trim_start(s))
}

/// Whether `s` holds nothing but white space.
pub open spec fn blank(s: Seq<char>) -> bool {
    forall|i: int| 0 <= i < s.len() ==> white_space(#[trigger] s[i])
}

/// The characters of `s` before its first white space.
pub open spec fn until_space(s: Seq<char>) -> Seq<char>
    decreases s.len(),
{
    if s.len() > 0 && !white_space(s[0]) {
        seq![s[0]] + until_space(s.drop_first())
    } else {
        Seq::empty()
    }
}

/// The first run of characters in `s` that are not white space, empty where
/// `s` is blank.
pub open spec fn first_word(s: Seq<char>) -> Seq<char> {
    until_space(trim_start(s))
}

/// Where `c` first stands in `s`; the length of `s` where it does not.
pub open spec fn position(s: Seq<char>, c: char) -> int
    decreases s.len(),
{
    if s.len() == 0 || s[0] == c {
        0
    } else {
        1 + position(s.drop_first(), c)
    }
}

/// The pieces of `s` between the separators `c`: one more than there are
/// separators.
pub open spec fn split(s: Seq<char>, c: char) -> Seq<Seq<char>>
    decreases s.len(),
    via split_decreases
{
    let at = position(s, c);
    if at >= s.len() {
        seq![s]
    } else {
        seq![s.subrange(0, at)] + split(s.subrange(at + 1, s.len() as int), c)
    }
}

#[via_fn]
proof fn split_decreases(s: Seq<char>, c: char) {
    lemma_position(s, c);
}

/// `position` finds the first of them.
pub proof fn lemma_position(s: Seq<char>, c: char)
    ensures
        0 <= position(s, c) <= s.len(),
        position(s, c) < s.len() ==> s[position(s, c)] == c,
        forall|i: int| 0 <= i < position(s, c) ==> #[trigger] s[i] != c,
    decreases s.len(),
{
    if s.len() > 0 && s[0] != c {
        let rest = s.drop_first();
        lemma_position(rest, c);
        assert forall|i: int| 0 <= i < position(s, c) implies #[trigger] s[i] != c by {
            if i > 0 {
                assert(rest[i - 1] == s[i]);
            }
        }
    }
}

/// Whether `needle` stands somewhere in `hay`.
pub open spec fn occurs(needle: Seq<char>, hay: Seq<char>) -> bool {
    exists|i: int|
        0 <= i <= hay.len() - needle.len() && #[trigger] hay.subrange(i, i + needle.len()) == needle
}

/// The lexicographic order of two texts, by code point.
pub open spec fn text_order(a: Seq<char>, b: Seq<char>) -> Order
    decreases a.len(),
{
    if a.len() == 0 && b.len() == 0 {
        Order::Equal
    } else if a.len() == 0 {
        Order::Less
    } else if b.len() == 0 {
        Order::Greater
    } else if a[0] < b[0] {
        Order::Less
    } else if a[0] > b[0] {
        Order::Greater
    } else {
        text_order(a.drop_first(), b.drop_first())
    }
}

/// The character of a decimal digit.
pub open spec fn digit(d: nat) -> char {
    (0x30 + d) as char
}

/// `n` in decimal, without leading zeros.
pub open spec fn decimal(n: nat) -> Seq<char>
    decreases n,
{
    if n < 10 {
        seq![digit(n)]
    } else {
        decimal(n / 10).push(digit(n % 10))
    }
}

/// Whether `c` is white space.
pub fn is_white_space(c: char) -> (r: bool)
    ensures
        r == white_space(c),
        r == {
            ||| '\t' <= c <= '\r'
            ||| c == ' '
            ||| c == '\u{85}'
            ||| c == '\u{a0}'
            ||| c == '\u{1680}'
            ||| '\u{2000}' <= c <= '\u{200a}'
            ||| c == '\u{2028}'
            ||| c == '\u{2029}'
            ||| c == '\u{202f}'
            ||| c == '\u{205f}'
            ||| c == '\u{3000}'
        },
{
    let u: u32 = c as u32;
    (0x9 <= u && u <= 0xd) || u == 0x20 || u == 0x85 || u == 0xa0 || u == 0x1680 || (0x2000 <= u
        && u <= 0x200a) || u == 0x2028 || u == 0x2029 || u == 0x202f || u == 0x205f || u == 0x3000
}

/// The characters of `s`, for access by index.
pub fn chars_of(s: &str) -> (r: Vec<char>)
    ensures
        r@ == s@,
{
    let mut r: Vec<char> = Vec::new();
    for c in it: s.chars()
        invariant
            it.seq() == s@,
            r@ == s@.take(it.index()),
    {
        r.push(c);
    }
    r
}

/// The index of the first character of `chars[lo..hi]` that is not white
/// space, `hi` where there is none.
pub fn skip_space(chars: &Vec<char>, lo: usize, hi: usize) -> (r: usize)
    requires
        lo <= hi <= chars@.len(),
    ensures
        lo <= r <= hi,
        trim_start(chars@.subrange(lo as int, hi as int)) == chars@.subrange(r as int, hi as int),
{
    let mut i: usize = lo;
    while i < hi && is_white_space(chars[i])
        invariant
            lo <= i <= hi <= chars@.len(),
            trim_start(chars@.subrange(lo as int, hi as int)) == trim_start(
                chars@.subrange(i as int, hi as int),
            ),
        decreases hi - i,
    {
        assert(chars@.subrange(i as int, hi as int).drop_first() =~= chars@.subrange(
            i + 1,
            hi as int,
        ));
        i = i + 1;
    }
    i
}

/// The index after the last character of `chars[lo..hi]` that is not white
/// space, `lo` where there is none.
pub fn skip_space_back(chars: &Vec<char>, lo: usize, hi: usize) -> (r: usize)
    requires
        lo <= hi <= chars@.len(),
    ensures
        lo <= r <= hi,
        trim_end(chars@.subrange(lo as int, hi as int)) == chars@.subrange(lo as int, r as int),
{
    let mut i: usize = hi;
    while lo < i && is_white_space(chars[i - 1])
        invariant
            lo <= i <= hi <= chars@.len(),
            trim_end(chars@.subrange(lo as int, hi as int)) == trim_end(
                chars@.subrange(lo as int, i as int),
            ),
        decreases i,
    {
        assert(chars@.subrange(lo as int, i as int).drop_last() =~= chars@.subrange(
            lo as int,
            i - 1,
        ));
        i = i - 1;
    }
    i
}

/// The index of the first white space in `chars[lo..hi]`, `hi` where there is
/// none.
pub fn skip_word(chars: &Vec<char>, lo: usize, hi: usize) -> (r: usize)
    requires
        lo <= hi <= chars@.len(),
    ensures
        lo <= r <= hi,
        until_space(chars@.subrange(lo as int, hi as int)) == chars@.subrange(lo as int, r as int),
{
    let mut i: usize = lo;
    while i < hi && !is_white_space(chars[i])
        invariant
            lo <= i <= hi <= chars@.len(),
            until_space(chars@.subrange(lo as int, hi as int)) == chars@.subrange(
                lo as int,
                i as int,
            ) + until_space(chars@.subrange(i as int, hi as int)),
        decreases hi - i,
    {
        proof {
            let rest = chars@.subrange(i as int, hi as int);
            assert(rest.drop_first() =~= chars@.subrange(i + 1, hi as int));
            assert(chars@.subrange(lo as int, i as int) + (seq![rest[0]] + until_space(
                rest.drop_first(),
            )) =~= chars@.subrange(lo as int, i + 1) + until_space(rest.drop_first()));
        }
        i = i + 1;
    }
    i
}

/// The index of the first `c` in `chars[lo..hi]`, `hi` where there is none.
pub fn find_char(chars: &Vec<char>, lo: usize, hi: usize, c: char) -> (r: usize)
    requires
        lo <= hi <= chars@.len(),
    ensures
        lo <= r <= hi,
        r == lo + position(chars@.subrange(lo as int, hi as int), c),
{
    let mut i: usize = lo;
    while i < hi && chars[i] != c
        invariant
            lo <= i <= hi <= chars@.len(),
            lo + position(chars@.subrange(lo as int, hi as int), c) == i + position(
                chars@.subrange(i as int, hi as int),
                c,
            ),
        decreases hi - i,
    {
        assert(chars@.subrange(i as int, hi as int).drop_first() =~= chars@.subrange(
            i + 1,
            hi as int,
        ));
        i = i + 1;
    }
    i
}

/// Whether `piece` stands in `chars` at `at`, inside the first `hi` characters.
pub fn stands_at(chars: &Vec<char>, at: usize, hi: usize, piece: &Vec<char>) -> (r: bool)
    requires
        at <= hi <= chars@.len(),
    ensures
        r <==> at + piece@.len() <= hi && chars@.subrange(at as int, at + piece@.len()) == piece@,
{
    if hi - at < piece.len() {
        return false;
    }
    let mut i: usize = 0;
    while i < piece.len()
        invariant
            i <= piece@.len(),
            at + piece@.len() <= hi <= chars@.len(),
            forall|k: int| 0 <= k < i ==> chars@[at + k] == #[trigger] piece@[k],
        decreases piece@.len() - i,
    {
        if chars[at + i] != piece[i] {
            assert(chars@.subrange(at as int, at + piece@.len())[i as int] != piece@[i as int]);
            return false;
        }
        i = i + 1;
    }
    assert(chars@.subrange(at as int, at + piece@.len()) =~= piece@);
    true
}

/// Whether `needle` stands somewhere in `hay`.
pub fn contains(hay: &str, needle: &str) -> (r: bool)
    ensures
        r == occurs(needle@, hay@),
{
    let chars = chars_of(hay);
    let piece = chars_of(needle);
    let n: usize = chars.len();
    let mut i: usize = 0;
    loop
        invariant
            i <= n == chars@.len(),
            chars@ == hay@,
            piece@ == needle@,
            forall|k: int|
                0 <= k < i && k <= hay@.len() - needle@.len() ==> #[trigger] hay@.subrange(
                    k,
                    k + needle@.len(),
                ) != needle@,
        decreases n - i,
    {
        if stands_at(&chars, i, n, &piece) {
            return true;
        }
        if i == n {
            return false;
        }
        i = i + 1;
    }
}

/// `s` without the white space around it.
pub fn trim(s: &str) -> (r: String)
    ensures
        r@ == trimmed(s@),
{
    let chars = chars_of(s);
    let n: usize = chars.len();
    let lo: usize = skip_space(&chars, 0, n);
    let hi: usize = skip_space_back(&chars, lo, n);
    assert(s@ =~= chars@.subrange(0, n as int));
    s.substring_char(lo, hi).to_owned()
}

/// Whether `s` holds nothing but white space.
pub fn is_blank(s: &str) -> (r: bool)
    ensures
        r == blank(s@),
        r == (trimmed(s@).len() == 0),
{
    let chars = chars_of(s);
    let n: usize = chars.len();
    let lo: usize = skip_space(&chars, 0, n);
    proof {
        assert(s@ =~= chars@.subrange(0, n as int));
        law_blank_is_trimmed_empty(s@);
        lemma_trim_start_blank(s@);
    }
    lo == n
}

/// The order of two texts by code point.
pub fn compare_text(a: &str, b: &str) -> (r: Order)
    ensures
        r == text_order(a@, b@),
{
    let x = chars_of(a);
    let y = chars_of(b);
    let mut i: usize = 0;
    assert(a@.skip(0) =~= a@);
    assert(b@.skip(0) =~= b@);
    while i < x.len() && i < y.len()
        invariant
            x@ == a@,
            y@ == b@,
            i <= x@.len(),
            i <= y@.len(),
            text_order(a@, b@) == text_order(a@.skip(i as int), b@.skip(i as int)),
        decreases x@.len() - i,
    {
        if x[i] < y[i] {
            return Order::Less;
        }
        if x[i] > y[i] {
            return Order::Greater;
        }
        assert(a@.skip(i as int).drop_first() =~= a@.skip(i + 1));
        assert(b@.skip(i as int).drop_first() =~= b@.skip(i + 1));
        i = i + 1;
    }
    if i < y.len() {
        Order::Less
    } else if i < x.len() {
        Order::Greater
    } else {
        Order::Equal
    }
}

/// Whether two texts are the same.
pub fn same_text(a: &str, b: &str) -> (r: bool)
    ensures
        r == (a@ == b@),
{
    a.to_owned() == b.to_owned()
}

/// `n` in decimal.
pub fn decimal_text(n: u64) -> (r: String)
    ensures
        r@ == decimal(n as nat),
    decreases n,
{
    if n < 10 {
        digit_text(n)
    } else {
        let mut r = decimal_text(n / 10);
        let last = digit_text(n % 10);
        r.append(last.as_str());
        assert(r@ =~= decimal((n / 10) as nat).push(digit((n % 10) as nat)));
        r
    }
}

fn digit_text(d: u64) -> (r: String)
    requires
        d < 10,
    ensures
        r@ == seq![digit(d as nat)],
{
    let digits: &str = "0123456789";
    proof {
        reveal_strlit("0123456789");
    }
    let r = digits.substring_char(d as usize, d as usize + 1).to_owned();
    assert(r@ =~= seq![digit(d as nat)]);
    r
}

proof fn lemma_trim_start_blank(s: Seq<char>)
    ensures
        trim_start(s).len() == 0 <==> blank(s),
    decreases s.len(),
{
    if s.len() > 0 && white_space(s[0]) {
        let rest = s.drop_first();
        lemma_trim_start_blank(rest);
        if blank(rest) {
            assert forall|i: int| 0 <= i < s.len() implies white_space(#[trigger] s[i]) by {
                if i > 0 {
                    assert(white_space(rest[i - 1]));
                }
            }
        }
        if blank(s) {
            assert forall|i: int| 0 <= i < rest.len() implies white_space(#[trigger] rest[i]) by {
                assert(white_space(s[i + 1]));
            }
        }
    } else if s.len() > 0 {
        assert(!white_space(s[0]));
    }
}

proof fn lemma_trim_end_blank(s: Seq<char>)
    ensures
        trim_end(s).len() == 0 <==> blank(s),
    decreases s.len(),
{
    if s.len() > 0 && white_space(s.last()) {
        let rest = s.drop_last();
        lemma_trim_end_blank(rest);
        if blank(rest) {
            assert forall|i: int| 0 <= i < s.len() implies white_space(#[trigger] s[i]) by {
                if i < rest.len() {
                    assert(white_space(rest[i]));
                }
            }
        }
        if blank(s) {
            assert forall|i: int| 0 <= i < rest.len() implies white_space(#[trigger] rest[i]) by {
                assert(white_space(s[i]));
            }
        }
    } else if s.len() > 0 {
        assert(!white_space(s[s.len() - 1]));
    }
}

/// Trimming leaves nothing exactly of a blank text.
pub proof fn law_blank_is_trimmed_empty(s: Seq<char>)
    ensures
        trimmed(s).len() == 0 <==> blank(s),
{
    lemma_trim_start_blank(s);
    lemma_trim_end_blank(trim_start(s));
    if blank(trim_start(s)) && trim_start(s).len() > 0 {
        lemma_trim_start_head(s);
    }
}

proof fn lemma_trim_start_head(s: Seq<char>)
    ensures
        trim_start(s).len() > 0 ==> !white_space(trim_start(s)[0]),
    decreases s.len(),
{
    if s.len() > 0 && white_space(s[0]) {
        lemma_trim_start_head(s.drop_first());
    }
}

/// Two texts are equal in the order exactly where they are the same, and
/// exchanging them reverses the order.
pub proof fn law_text_order(a: Seq<char>, b: Seq<char>)
    ensures
        text_order(a, b) == Order::Equal <==> a == b,
        text_order(a, b) == Order::Less <==> text_order(b, a) == Order::Greater,
    decreases a.len(),
{
    if a.len() > 0 && b.len() > 0 && a[0] == b[0] {
        law_text_order(a.drop_first(), b.drop_first());
        if a.drop_first() == b.drop_first() {
            assert(a =~= seq![a[0]] + a.drop_first());
            assert(b =~= seq![b[0]] + b.drop_first());
        }
    } else if a.len() == 0 && b.len() == 0 {
        assert(a =~= b);
    }
}

/// The order of texts is transitive.
pub proof fn law_text_order_transitive(a: Seq<char>, b: Seq<char>, c: Seq<char>)
    requires
        text_order(a, b) == Order::Less,
        text_order(b, c) == Order::Less,
    ensures
        text_order(a, c) == Order::Less,
    decreases a.len(),
{
    if a.len() > 0 && b.len() > 0 && c.len() > 0 && a[0] == b[0] && b[0] == c[0] {
        law_text_order_transitive(a.drop_first(), b.drop_first(), c.drop_first());
    }
}

/// White space is the tabs, line ends and spaces of Unicode, whatever stands
/// around them, and nothing else is.
pub proof fn law_white_space(c: char)
    ensures
        white_space(c) <==> {
            ||| c == '\t' || c == '\n' || c == '\u{b}' || c == '\u{c}' || c == '\r' || c == ' '
            ||| c == '\u{85}' || c == '\u{a0}' || c == '\u{1680}'
            ||| '\u{2000}' <= c <= '\u{200a}'
            ||| c == '\u{2028}' || c == '\u{2029}' || c == '\u{202f}' || c == '\u{205f}'
            ||| c == '\u{3000}'
        },
{
}

/// A text is blank exactly where every character of it is white space; one
/// other character anywhere is enough for it not to be.
pub proof fn law_blank(a: Seq<char>, c: char, b: Seq<char>)
    ensures
        blank(a) && blank(b) && white_space(c) ==> blank(a + seq![c] + b),
        !white_space(c) ==> !blank(a + seq![c] + b),
        blank(Seq::<char>::empty()),
{
    let s = a + seq![c] + b;
    assert(s[a.len() as int] == c);
    if blank(a) && blank(b) && white_space(c) {
        assert forall|i: int| 0 <= i < s.len() implies white_space(#[trigger] s[i]) by {
            if i < a.len() {
                assert(s[i] == a[i]);
            } else if i > a.len() {
                assert(s[i] == b[i - a.len() - 1]);
            }
        }
    }
}

proof fn lemma_trim_start_after_blank(a: Seq<char>, s: Seq<char>)
    requires
        forall|i: int| 0 <= i < a.len() ==> white_space(#[trigger] a[i]),
    ensures
        trim_start(a + s) == trim_start(s),
    decreases a.len(),
{
    if a.len() == 0 {
        assert(a + s =~= s);
    } else {
        assert(white_space(a[0]));
        let rest = a.drop_first();
        assert forall|i: int| 0 <= i < rest.len() implies white_space(#[trigger] rest[i]) by {
            assert(rest[i] == a[i + 1]);
        }
        assert((a + s).drop_first() =~= rest + s);
        lemma_trim_start_after_blank(rest, s);
    }
}

/// Trimming at the end stops at the last character that is not white space.
pub proof fn lemma_trim_end_stops(s: Seq<char>, t: Seq<char>)
    requires
        s.len() > 0,
        !white_space(s.last()),
    ensures
        trim_end(s + t) == s + trim_end(t),
        trim_end(t).is_prefix_of(t),
        (forall|i: int| 0 <= i < t.len() ==> white_space(#[trigger] t[i])) ==> trim_end(t).len() == 0,
    decreases t.len(),
{
    if t.len() == 0 {
        assert(s + t =~= s);
        assert(s + trim_end(t) =~= s);
    } else {
        assert((s + t).last() == t.last());
        if white_space(t.last()) {
            assert((s + t).drop_last() =~= s + t.drop_last());
            lemma_trim_end_stops(s, t.drop_last());
            assert(trim_end(t) =~= t.subrange(0, trim_end(t).len() as int));
            if forall|i: int| 0 <= i < t.len() ==> white_space(#[trigger] t[i]) {
                assert forall|i: int| 0 <= i < t.drop_last().len() implies white_space(
                    #[trigger] t.drop_last()[i],
                ) by {
                    assert(white_space(t[i]));
                }
            }
        } else {
            assert(t =~= t.subrange(0, t.len() as int));
            assert(!white_space(t[t.len() - 1]));
        }
    }
}

/// Trimming takes away the white space before and after a text, all of it and
/// nothing else.
pub proof fn law_trimmed(before: Seq<char>, s: Seq<char>, after: Seq<char>)
    requires
        forall|i: int| 0 <= i < before.len() ==> white_space(#[trigger] before[i]),
        forall|i: int| 0 <= i < after.len() ==> white_space(#[trigger] after[i]),
        s.len() > 0 ==> !white_space(s[0]) && !white_space(s.last()),
    ensures
        trimmed(before + s + after) == s,
{
    assert(before + s + after =~= before + (s + after));
    lemma_trim_start_after_blank(before, s + after);
    if s.len() > 0 {
        assert((s + after)[0] == s[0]);
        lemma_trim_end_stops(s, after);
        assert(s + trim_end(after) =~= s);
    } else {
        assert(s + after =~= after);
        assert(blank(after));
        lemma_trim_start_blank(after);
        assert(trimmed(before + s + after) =~= s);
    }
}

proof fn lemma_until_space_stops(word: Seq<char>, after: Seq<char>)
    requires
        forall|i: int| 0 <= i < word.len() ==> !white_space(#[trigger] word[i]),
        after.len() > 0 ==> white_space(after[0]),
    ensures
        until_space(word + after) == word,
    decreases word.len(),
{
    let s = word + after;
    if word.len() == 0 {
        assert(s =~= after);
        assert(until_space(s) =~= word);
    } else {
        assert(!white_space(word[0]));
        let rest = word.drop_first();
        assert forall|i: int| 0 <= i < rest.len() implies !white_space(#[trigger] rest[i]) by {
            assert(rest[i] == word[i + 1]);
        }
        lemma_until_space_stops(rest, after);
        assert(s.drop_first() =~= rest + after);
        assert(until_space(s) =~= word);
    }
}

/// The first word is the whole run of characters between the white space that
/// a text starts with and the next white space, or the end of the text.
pub proof fn law_first_word(before: Seq<char>, word: Seq<char>, after: Seq<char>)
    requires
        forall|i: int| 0 <= i < before.len() ==> white_space(#[trigger] before[i]),
        forall|i: int| 0 <= i < word.len() ==> !white_space(#[trigger] word[i]),
        after.len() > 0 ==> word.len() > 0 && white_space(after[0]),
    ensures
        first_word(before + word + after) == word,
{
    assert(before + word + after =~= before + (word + after));
    lemma_trim_start_after_blank(before, word + after);
    if word.len() > 0 {
        assert((word + after)[0] == word[0]);
        assert(!white_space(word[0]));
    } else {
        assert(word + after =~= word);
    }
    lemma_until_space_stops(word, after);
}

proof fn lemma_position_after(a: Seq<char>, c: char, b: Seq<char>)
    requires
        !a.contains(c),
    ensures
        position(a + seq![c] + b, c) == a.len(),
        position(a, c) == a.len(),
{
    let s = a + seq![c] + b;
    lemma_position(s, c);
    lemma_position(a, c);
    assert(s[a.len() as int] == c);
    let i = position(s, c);
    if i < a.len() {
        assert(a[i] == s[i]);
    }
}

/// A text is split at every separator: what stands before the first one is a
/// piece, and what stands after it is split in turn; a text without separator
/// is one piece.
pub proof fn law_split(a: Seq<char>, c: char, b: Seq<char>)
    requires
        !a.contains(c),
    ensures
        split(a, c) == seq![a],
        split(a + seq![c] + b, c) == seq![a] + split(b, c),
{
    let s = a + seq![c] + b;
    lemma_position_after(a, c, b);
    assert(s.subrange(0, a.len() as int) =~= a);
    assert(s.subrange(a.len() as int + 1, s.len() as int) =~= b);
}

/// A text stands in every text that is made by putting others around it, and
/// in no others.
pub proof fn law_occurs(before: Seq<char>, needle: Seq<char>, after: Seq<char>, hay: Seq<char>)
    ensures
        occurs(needle, before + needle + after),
        occurs(needle, hay) ==> exists|a: Seq<char>, b: Seq<char>|
            hay == #[trigger] (a + needle + b),
{
    let s = before + needle + after;
    let at = before.len() as int;
    assert(s.subrange(at, at + needle.len()) =~= needle);
    if occurs(needle, hay) {
        let i = choose|i: int|
            0 <= i <= hay.len() - needle.len() && #[trigger] hay.subrange(i, i + needle.len())
                == needle;
        let a = hay.subrange(0, i);
        let b = hay.subrange(i + needle.len(), hay.len() as int);
        assert(hay =~= a + needle + b);
    }
}

/// The first character in which two texts differ decides their order, whatever
/// follows.
pub proof fn law_text_order_first_difference(a: Seq<char>, b: Seq<char>, k: int)
    requires
        0 <= k < a.len(),
        k < b.len(),
        forall|i: int| 0 <= i < k ==> a[i] == b[i],
        a[k] < b[k],
    ensures
        text_order(a, b) == Order::Less,
        text_order(b, a) == Order::Greater,
    decreases k,
{
    if k > 0 {
        assert(a[0] == b[0]);
        law_text_order_first_difference(a.drop_first(), b.drop_first(), k - 1);
    }
}

/// A text comes before all longer ones that it starts.
pub proof fn law_text_order_prefix(a: Seq<char>, more: Seq<char>)
    requires
        more.len() > 0,
    ensures
        text_order(a, a + more) == Order::Less,
        text_order(a + more, a) == Order::Greater,
    decreases a.len(),
{
    if a.len() > 0 {
        law_text_order_prefix(a.drop_first(), more);
        assert((a + more).drop_first() =~= a.drop_first() + more);
    }
}

/// In decimal, a digit stands for itself, and one digit more at the end stands
/// for ten times the number and the digit; nothing else is added.
pub proof fn law_decimal(n: nat, d: nat)
    requires
        d < 10,
    ensures
        decimal(d) == seq!["0123456789"@[d as int]],
        n > 0 ==> decimal(10 * n + d) == decimal(n).push("0123456789"@[d as int]),
{
    reveal_strlit("0123456789");
    assert((10 * n + d) / 10 == n && (10 * n + d) % 10 == d);
}

} // verus!
