//! Text helpers: decimal numerals, UTF-8, white space, and comma separated lists.

use vstd::prelude::*;
use vstd::string::*;
use vstd::utf8::*;

verus! {

broadcast use vstd::string::group_string_axioms;

/// The decimal digit of a number below ten.
pub open spec fn digit(d: nat) -> char {
    ('0' as u32 + d) as u32 as char
}

/// The decimal numeral of `n`, without leading zeros.
pub open spec fn decimal(n: nat) -> Seq<char>
    decreases n,
{
    if n < 10 {
        seq![digit(n)]
    } else {
        decimal(n / 10).push(digit(n % 10))
    }
}

/// The decimal digit of `d`, as text.
fn digit_text(d: u64) -> (r: &'static str)
    requires
        d < 10,
    ensures
        r@ == seq![digit(d as nat)],
{
    proof {
        reveal_strlit("0");
        reveal_strlit("1");
        reveal_strlit("2");
        reveal_strlit("3");
        reveal_strlit("4");
        reveal_strlit("5");
        reveal_strlit("6");
        reveal_strlit("7");
        reveal_strlit("8");
        reveal_strlit("9");
    }
    match d {
        0 => "0",
        1 => "1",
        2 => "2",
        3 => "3",
        4 => "4",
        5 => "5",
        6 => "6",
        7 => "7",
        8 => "8",
        _ => "9",
    }
}

/// Writes a number as a decimal numeral.
pub fn decimal_text(n: u64) -> (r: String)
    ensures
        r@ == decimal(n as nat),
    decreases n,
{
    if n < 10 {
        digit_text(n).to_owned()
    } else {
        let mut r: String = decimal_text(n / 10);
        r.append(digit_text(n % 10));
        r
    }
}

/// Whether `c` is a decimal digit.
pub open spec fn is_digit(c: char) -> bool {
    '0' <= c <= '9'
}

/// Texts with the same head have the same tail.
pub proof fn lemma_same_head(head: Seq<char>, x: Seq<char>, y: Seq<char>)
    requires
        head + x == head + y,
    ensures
        x == y,
{
    assert(x =~= (head + x).skip(head.len() as int));
    assert(y =~= (head + y).skip(head.len() as int));
}

/// A numeral holds digits only, and at least one.
pub proof fn lemma_decimal_digits(n: nat)
    ensures
        decimal(n).len() > 0,
        forall|i: int| 0 <= i < decimal(n).len() ==> is_digit(#[trigger] decimal(n)[i]),
    decreases n,
{
    if n >= 10 {
        lemma_decimal_digits(n / 10);
    }
}

/// Different numbers have different numerals.
pub proof fn lemma_decimal_injective(m: nat, n: nat)
    requires
        decimal(m) == decimal(n),
    ensures
        m == n,
    decreases m,
{
    lemma_decimal_digits(m / 10);
    lemma_decimal_digits(n / 10);
    assert(decimal(m).last() == digit(m % 10));
    assert(decimal(n).last() == digit(n % 10));
    if m >= 10 && n >= 10 {
        assert(decimal(m / 10) =~= decimal(m).drop_last());
        assert(decimal(n / 10) =~= decimal(n).drop_last());
        lemma_decimal_injective(m / 10, n / 10);
    }
}

/// Two numerals at the head of the same text, each before a character that is
/// no digit, are numerals of the same number.
pub proof fn lemma_decimal_head(m: nat, n: nat, x: Seq<char>, y: Seq<char>)
    requires
        decimal(m) + x == decimal(n) + y,
        x.len() > 0 && !is_digit(x[0]),
        y.len() > 0 && !is_digit(y[0]),
    ensures
        m == n,
        x == y,
{
    let l = decimal(m) + x;
    let r = decimal(n) + y;
    lemma_decimal_digits(m);
    lemma_decimal_digits(n);
    if decimal(m).len() < decimal(n).len() {
        assert(l[decimal(m).len() as int] == x[0]);
        assert(r[decimal(m).len() as int] == decimal(n)[decimal(m).len() as int]);
    } else if decimal(n).len() < decimal(m).len() {
        assert(r[decimal(n).len() as int] == y[0]);
        assert(l[decimal(n).len() as int] == decimal(m)[decimal(n).len() as int]);
    }
    assert(decimal(m) =~= l.take(decimal(m).len() as int));
    assert(decimal(n) =~= r.take(decimal(n).len() as int));
    lemma_decimal_injective(m, n);
    lemma_same_head(decimal(m), x, y);
}

/// Whether `c` has the Unicode property White_Space.
pub open spec fn is_white_space(c: char) -> bool {
    let n = c as u32;
    ||| 0x9 <= n <= 0xd
    ||| n == 0x20
    ||| n == 0x85
    ||| n == 0xa0
    ||| n == 0x1680
    ||| 0x2000 <= n <= 0x200a
    ||| n == 0x2028
    ||| n == 0x2029
    ||| n == 0x202f
    ||| n == 0x205f
    ||| n == 0x3000
}

/// Whether the character has the Unicode property White_Space.
fn white_space(c: char) -> (r: bool)
    ensures
        r == is_white_space(c),
{
    let n: u32 = c as u32;
    (0x9 <= n && n <= 0xd) || n == 0x20 || n == 0x85 || n == 0xa0 || n == 0x1680 || (0x2000 <= n
        && n <= 0x200a) || n == 0x2028 || n == 0x2029 || n == 0x202f || n == 0x205f || n == 0x3000
}

/// `s` without the white space at its two ends.
pub open spec fn trimmed(s: Seq<char>) -> Seq<char>
    decreases s.len(),
{
    if s.len() == 0 {
        s
    } else if is_white_space(s.first()) {
        trimmed(s.drop_first())
    } else if is_white_space(s.last()) {
        trimmed(s.drop_last())
    } else {
        s
    }
}

/// The pieces of `s` between the separators: one more than there are
/// separators in `s`.
pub open spec fn split_on(s: Seq<char>, sep: char) -> Seq<Seq<char>>
    decreases s.len(),
{
    if s.len() == 0 {
        seq![Seq::empty()]
    } else {
        let before = split_on(s.drop_last(), sep);
        if s.last() == sep {
            before.push(Seq::empty())
        } else {
            before.drop_last().push(before.last().push(s.last()))
        }
    }
}

/// The pieces that hold more than white space, without the white space at
/// their ends.
pub open spec fn trimmed_pieces(pieces: Seq<Seq<char>>) -> Seq<Seq<char>>
    decreases pieces.len(),
{
    if pieces.len() == 0 {
        Seq::empty()
    } else {
        let before = trimmed_pieces(pieces.drop_last());
        let piece = trimmed(pieces.last());
        if piece.len() == 0 {
            before
        } else {
            before.push(piece)
        }
    }
}

/// The items of a comma separated list: white space around an item does not
/// count, nor do empty items.
pub open spec fn list_items(s: Seq<char>) -> Seq<Seq<char>> {
    trimmed_pieces(split_on(s, ','))
}

/// The texts that a list of strings holds.
pub open spec fn texts(v: Seq<String>) -> Seq<Seq<char>> {
    v.map_values(|s: String| s@)
}

/// The characters of a text.
pub(crate) fn characters(s: &str) -> (r: Vec<char>)
    ensures
        r@ == s@,
{
    let mut r: Vec<char> = Vec::new();
    for c in it: s.chars()
        invariant
            r@ == it.seq().take(it.index()),
            it.seq() == s@,
    {
        r.push(c);
    }
    r
}

/// Where the text between `from` and `to` begins and ends without the white
/// space at its ends.
fn trim_range(chars: &Vec<char>, from: usize, to: usize) -> (r: (usize, usize))
    requires
        from <= to <= chars@.len(),
    ensures
        from <= r.0 <= r.1 <= to,
        chars@.subrange(r.0 as int, r.1 as int) == trimmed(
            chars@.subrange(from as int, to as int),
        ),
{
    let ghost whole = trimmed(chars@.subrange(from as int, to as int));
    let mut a: usize = from;
    while a < to && white_space(chars[a])
        invariant
            from <= a <= to <= chars@.len(),
            trimmed(chars@.subrange(a as int, to as int)) == whole,
        decreases to - a,
    {
        let ghost sub = chars@.subrange(a as int, to as int);
        assert(sub.first() == chars@[a as int]);
        assert(sub.drop_first() =~= chars@.subrange(a + 1, to as int));
        a = a + 1;
    }
    let mut b: usize = to;
    while a < b && white_space(chars[b - 1])
        invariant
            from <= a <= b <= to <= chars@.len(),
            a < b ==> !is_white_space(chars@[a as int]),
            trimmed(chars@.subrange(a as int, b as int)) == whole,
        decreases b - a,
    {
        let ghost sub = chars@.subrange(a as int, b as int);
        assert(sub.first() == chars@[a as int]);
        assert(sub.last() == chars@[b - 1]);
        assert(sub.drop_last() =~= chars@.subrange(a as int, b - 1));
        b = b - 1;
    }
    proof {
        let sub = chars@.subrange(a as int, b as int);
        if a < b {
            assert(sub.first() == chars@[a as int]);
            assert(sub.last() == chars@[b - 1]);
        }
    }
    (a, b)
}

/// Appends the text between `from` and `to`, without the white space at its
/// ends, unless nothing is left of it.
fn push_trimmed(s: &str, chars: &Vec<char>, from: usize, to: usize, items: &mut Vec<String>)
    requires
        chars@ == s@,
        from <= to <= chars@.len(),
    ensures
        ({
            let piece = trimmed(s@.subrange(from as int, to as int));
            texts(final(items)@) == if piece.len() == 0 {
                texts(old(items)@)
            } else {
                texts(old(items)@).push(piece)
            }
        }),
{
    let (a, b): (usize, usize) = trim_range(chars, from, to);
    if a < b {
        items.push(s.substring_char(a, b).to_owned());
        assert(texts(items@) =~= texts(old(items)@).push(
            trimmed(s@.subrange(from as int, to as int)),
        ));
    }
}

/// Reads a comma separated list.
pub fn parse_list(s: &str) -> (r: Vec<String>)
    ensures
        texts(r@) == list_items(s@),
{
    let chars: Vec<char> = characters(s);
    let mut items: Vec<String> = Vec::new();
    let mut start: usize = 0;
    let mut i: usize = 0;
    let ghost mut done: Seq<Seq<char>> = Seq::empty();
    assert(texts(items@) =~= Seq::<Seq<char>>::empty());
    proof {
        assert(s@.subrange(0, 0) =~= Seq::<char>::empty());
        assert(done.push(s@.subrange(0, 0)) =~= split_on(s@.take(0), ','));
    }
    while i < chars.len()
        invariant
            chars@ == s@,
            start <= i <= chars@.len(),
            texts(items@) == trimmed_pieces(done),
            done.push(s@.subrange(start as int, i as int)) == split_on(s@.take(i as int), ','),
        decreases chars@.len() - i,
    {
        let ghost pieces = split_on(s@.take(i as int), ',');
        let ghost piece = s@.subrange(start as int, i as int);
        proof {
            assert(s@.take(i + 1).drop_last() =~= s@.take(i as int));
            assert(s@.take(i + 1).last() == s@[i as int]);
            assert(pieces.drop_last() =~= done);
            assert(pieces.last() == piece);
        }
        if chars[i] == ',' {
            push_trimmed(s, &chars, start, i, &mut items);
            start = i + 1;
            proof {
                done = done.push(piece);
                assert(done.drop_last() =~= pieces.drop_last());
                assert(s@.subrange(start as int, i + 1) =~= Seq::<char>::empty());
                assert(done =~= pieces);
            }
        } else {
            assert(s@.subrange(start as int, i + 1) =~= piece.push(s@[i as int]));
        }
        i = i + 1;
    }
    push_trimmed(s, &chars, start, i, &mut items);
    proof {
        let piece = s@.subrange(start as int, i as int);
        assert(s@.take(i as int) =~= s@);
        assert(done.push(piece).drop_last() =~= done);
        assert(done.push(piece).last() == piece);
    }
    items
}

/// Splitting at a separator splits the two sides on their own.
proof fn lemma_split_join(a: Seq<char>, b: Seq<char>, sep: char)
    ensures
        split_on(a + seq![sep] + b, sep) == split_on(a, sep) + split_on(b, sep),
        split_on(b, sep).len() > 0,
    decreases b.len(),
{
    let whole = a + seq![sep] + b;
    if b.len() == 0 {
        assert(whole.drop_last() =~= a);
        assert(whole.last() == sep);
        assert(split_on(whole, sep) =~= split_on(a, sep) + split_on(b, sep));
    } else {
        lemma_split_join(a, b.drop_last(), sep);
        assert(whole.drop_last() =~= a + seq![sep] + b.drop_last());
        assert(whole.last() == b.last());
        assert(split_on(whole, sep) =~= split_on(a, sep) + split_on(b, sep));
    }
}

proof fn lemma_trimmed_pieces_join(p: Seq<Seq<char>>, q: Seq<Seq<char>>)
    ensures
        trimmed_pieces(p + q) == trimmed_pieces(p) + trimmed_pieces(q),
    decreases q.len(),
{
    if q.len() == 0 {
        assert(p + q =~= p);
        assert(trimmed_pieces(p) + trimmed_pieces(q) =~= trimmed_pieces(p));
    } else {
        lemma_trimmed_pieces_join(p, q.drop_last());
        assert((p + q).drop_last() =~= p + q.drop_last());
        assert((p + q).last() == q.last());
        assert(trimmed_pieces(p + q) =~= trimmed_pieces(p) + trimmed_pieces(q));
    }
}

/// A list that is joined from two lists by a comma holds the items of the
/// first and after them the items of the second.
pub proof fn law_joined_lists(a: Seq<char>, b: Seq<char>)
    ensures
        list_items(a + seq![','] + b) == list_items(a) + list_items(b),
{
    lemma_split_join(a, b, ',');
    lemma_trimmed_pieces_join(split_on(a, ','), split_on(b, ','));
}

/// Whether `s` can be an item of a list: it is not empty, has no comma in it
/// and no white space at its ends.
pub open spec fn is_item(s: Seq<char>) -> bool {
    &&& s.len() > 0
    &&& !s.contains(',')
    &&& !is_white_space(s.first())
    &&& !is_white_space(s.last())
}

proof fn lemma_split_pieces(s: Seq<char>, sep: char)
    ensures
        split_on(s, sep).len() > 0,
        forall|i: int|
            0 <= i < split_on(s, sep).len() ==> !(#[trigger] split_on(s, sep)[i]).contains(sep),
    decreases s.len(),
{
    if s.len() > 0 {
        let before = split_on(s.drop_last(), sep);
        lemma_split_pieces(s.drop_last(), sep);
        assert forall|i: int| 0 <= i < split_on(s, sep).len() implies !(#[trigger] split_on(
            s,
            sep,
        )[i]).contains(sep) by {
            let piece = split_on(s, sep)[i];
            if piece.contains(sep) {
                let k = piece.index_of(sep);
                if i < before.len() - 1 {
                    assert(piece == before[i]);
                } else if s.last() != sep {
                    let last = before.last();
                    assert(before[before.len() - 1] == last);
                    assert(piece == last.push(s.last()));
                    if k < last.len() {
                        assert(last[k] == sep);
                    }
                } else if i == before.len() - 1 {
                    assert(piece == before[i]);
                }
            }
        }
    }
}

proof fn lemma_trimmed(s: Seq<char>)
    ensures
        trimmed(s).len() > 0 ==> !is_white_space(trimmed(s).first()) && !is_white_space(
            trimmed(s).last(),
        ),
        forall|c: char| #[trigger] trimmed(s).contains(c) ==> s.contains(c),
    decreases s.len(),
{
    if s.len() > 0 {
        if is_white_space(s.first()) {
            lemma_trimmed(s.drop_first());
            assert forall|c: char| #[trigger] trimmed(s).contains(c) implies s.contains(c) by {
                assert(trimmed(s.drop_first()).contains(c));
                let k = s.drop_first().index_of(c);
                assert(s[k + 1] == c);
            }
        } else if is_white_space(s.last()) {
            lemma_trimmed(s.drop_last());
            assert forall|c: char| #[trigger] trimmed(s).contains(c) implies s.contains(c) by {
                assert(trimmed(s.drop_last()).contains(c));
                let k = s.drop_last().index_of(c);
                assert(s[k] == c);
            }
        }
    }
}

proof fn lemma_trimmed_pieces_items(pieces: Seq<Seq<char>>)
    requires
        forall|i: int| 0 <= i < pieces.len() ==> !(#[trigger] pieces[i]).contains(','),
    ensures
        forall|i: int|
            0 <= i < trimmed_pieces(pieces).len() ==> is_item(#[trigger] trimmed_pieces(pieces)[i]),
    decreases pieces.len(),
{
    if pieces.len() > 0 {
        lemma_trimmed_pieces_items(pieces.drop_last());
        lemma_trimmed(pieces.last());
        let piece = trimmed(pieces.last());
        assert(!pieces[pieces.len() - 1].contains(','));
        assert(piece.len() > 0 ==> is_item(piece));
        let before = trimmed_pieces(pieces.drop_last());
        assert forall|i: int| 0 <= i < trimmed_pieces(pieces).len() implies is_item(
            #[trigger] trimmed_pieces(pieces)[i],
        ) by {
            if i < before.len() {
                assert(trimmed_pieces(pieces)[i] == before[i]);
            }
        }
    }
}

/// Every item of a list is not empty, has no comma in it and no white space at
/// its ends.
pub proof fn law_items_are_items(s: Seq<char>)
    ensures
        forall|i: int| 0 <= i < list_items(s).len() ==> is_item(#[trigger] list_items(s)[i]),
{
    lemma_split_pieces(s, ',');
    lemma_trimmed_pieces_items(split_on(s, ','));
}

proof fn lemma_split_without_separator(s: Seq<char>, sep: char)
    requires
        !s.contains(sep),
    ensures
        split_on(s, sep) == seq![s],
    decreases s.len(),
{
    if s.len() > 0 {
        let init = s.drop_last();
        if init.contains(sep) {
            let k = init.index_of(sep);
            assert(s[k] == sep);
        }
        lemma_split_without_separator(init, sep);
        assert(s.last() == s[s.len() - 1]);
        assert(init.push(s.last()) =~= s);
        assert(split_on(s, sep) =~= seq![s]);
    } else {
        assert(s =~= Seq::<char>::empty());
    }
}

/// The items joined by commas.
pub open spec fn joined(items: Seq<Seq<char>>) -> Seq<char>
    decreases items.len(),
{
    if items.len() == 0 {
        Seq::empty()
    } else if items.len() == 1 {
        items[0]
    } else {
        joined(items.drop_last()) + seq![','] + items.last()
    }
}

/// Reading back items that were joined by commas gives the items.
pub proof fn law_list_round_trip(items: Seq<Seq<char>>)
    requires
        forall|i: int| 0 <= i < items.len() ==> is_item(#[trigger] items[i]),
    ensures
        list_items(joined(items)) == items,
    decreases items.len(),
{
    if items.len() == 0 {
        let nothing = Seq::<char>::empty();
        assert(split_on(nothing, ',') == seq![nothing]);
        assert(seq![nothing].drop_last() =~= Seq::<Seq<char>>::empty());
        assert(trimmed(nothing) =~= nothing);
        reveal_with_fuel(trimmed_pieces, 2);
        assert(list_items(nothing) =~= items);
    } else {
        let last = items.last();
        assert(is_item(items[items.len() - 1]));
        lemma_split_without_separator(last, ',');
        assert(seq![last].drop_last() =~= Seq::<Seq<char>>::empty());
        reveal_with_fuel(trimmed_pieces, 2);
        assert(trimmed(last) == last);
        assert(list_items(last) =~= seq![last]);
        if items.len() == 1 {
            assert(items =~= seq![last]);
        } else {
            law_list_round_trip(items.drop_last());
            law_joined_lists(joined(items.drop_last()), last);
            assert(items =~= items.drop_last() + seq![last]);
        }
    }
}

/// The length of a text in bytes.
pub fn byte_len(s: &str) -> (r: usize)
    ensures
        r == encode_utf8(s@).len(),
{
    s.as_bytes().len()
}

/// What the error of `String::from_utf8` says of bytes that are not UTF-8.
pub uninterp spec fn utf8_fault(raw: Seq<u8>) -> Seq<char>;

/// `String::from_utf8`: the text that the bytes encode; where they are not
/// UTF-8, the text of the error, which the bytes determine.
#[verifier::external_body]
pub(crate) fn text_of_bytes(raw: Vec<u8>) -> (r: Result<String, String>)
    ensures
        r is Ok <==> valid_utf8(raw@),
        r is Ok ==> r->Ok_0@ == decode_utf8(raw@),
        r is Err ==> r->Err_0@ == utf8_fault(raw@),
{
    match String::from_utf8(raw) {
        Ok(text) => Ok(text),
        Err(e) => Err(e.to_string()),
    }
}

/// What `str::to_lowercase` makes of a text.
pub uninterp spec fn lowercase(s: Seq<char>) -> Seq<char>;

/// The lower case of an ASCII character.
pub open spec fn ascii_lowercase(c: char) -> char {
    if 'A' <= c <= 'Z' {
        (c as u32 + 32) as u32 as char
    } else {
        c
    }
}

/// `str::to_lowercase`: the lower case of a text, by Unicode's rules. An ASCII
/// text keeps its length, and only its letters change.
#[verifier::external_body]
pub(crate) fn to_lowercase(s: &str) -> (r: String)
    ensures
        r@ == lowercase(s@),
        is_ascii_chars(s@) ==> r@ == s@.map_values(|c: char| ascii_lowercase(c)),
{
    s.to_lowercase()
}

/// The number that a numeral stands for.
pub open spec fn numeral_value(s: Seq<char>) -> int
    decreases s.len(),
{
    if s.len() == 0 {
        0
    } else {
        10 * numeral_value(s.drop_last()) + (s.last() as u32 - '0' as u32)
    }
}

/// The numeral of a number is made of decimal digits, stands for the number, and
/// has no leading zero.
pub proof fn law_numeral_stands_for_its_number(n: nat)
    ensures
        numeral_value(decimal(n)) == n,
        decimal(n).len() > 0,
        forall|i: int| 0 <= i < decimal(n).len() ==> '0' <= #[trigger] decimal(n)[i] <= '9',
        n > 0 ==> decimal(n)[0] != '0',
        n == 0 ==> decimal(n) == seq!['0'],
    decreases n,
{
    lemma_decimal_digits(n);
    assert forall|i: int| 0 <= i < decimal(n).len() implies '0' <= #[trigger] decimal(n)[i]
        <= '9' by {
        assert(is_digit(decimal(n)[i]));
    }
    reveal_with_fuel(numeral_value, 2);
    if n >= 10 {
        law_numeral_stands_for_its_number(n / 10);
        assert(decimal(n).drop_last() =~= decimal(n / 10));
        assert(decimal(n).last() == digit(n % 10));
        assert(decimal(n)[0] == decimal(n / 10)[0]);
    } else {
        assert(decimal(n).drop_last() =~= Seq::<char>::empty());
    }
}

pub(crate) proof fn lemma_sixty_four()
    ensures
        decimal(64) == "64"@,
{
    reveal_strlit("64");
    reveal_with_fuel(decimal, 2);
    assert(decimal(64) =~= "64"@);
}

/// The white space characters: tabulators and line breaks, the space, next line,
/// the no-break space, and the spaces and separators of other scripts.
pub proof fn law_white_space(c: char)
    ensures
        is_white_space(c) <==> seq![
            0x9u32, 0xa, 0xb, 0xc, 0xd, 0x20, 0x85, 0xa0, 0x1680, 0x2000, 0x2001, 0x2002, 0x2003,
            0x2004, 0x2005, 0x2006, 0x2007, 0x2008, 0x2009, 0x200a, 0x2028, 0x2029, 0x202f, 0x205f,
            0x3000,
        ].contains(c as u32),
{
    let all = seq![
        0x9u32, 0xa, 0xb, 0xc, 0xd, 0x20, 0x85, 0xa0, 0x1680, 0x2000, 0x2001, 0x2002, 0x2003,
        0x2004, 0x2005, 0x2006, 0x2007, 0x2008, 0x2009, 0x200a, 0x2028, 0x2029, 0x202f, 0x205f,
        0x3000,
    ];
    let n = c as u32;
    if is_white_space(c) {
        let i: int = if n <= 0xd {
            n - 0x9
        } else if n == 0x20 {
            5
        } else if n == 0x85 {
            6
        } else if n == 0xa0 {
            7
        } else if n == 0x1680 {
            8
        } else if n <= 0x200a {
            9 + n - 0x2000
        } else if n == 0x2028 {
            20
        } else if n == 0x2029 {
            21
        } else if n == 0x202f {
            22
        } else if n == 0x205f {
            23
        } else {
            24
        };
        assert(all[i] == n);
    }
}

/// Trimming takes away white space at the two ends, all of it, and nothing else:
/// what is left is the text between the first and the last character that is no
/// white space.
#[verifier::rlimit(50)]
pub proof fn law_trimmed(s: Seq<char>) -> (range: (int, int))
    ensures
        0 <= range.0 <= range.1 <= s.len(),
        trimmed(s) == s.subrange(range.0, range.1),
        forall|i: int| 0 <= i < range.0 ==> is_white_space(#[trigger] s[i]),
        forall|i: int| range.1 <= i < s.len() ==> is_white_space(#[trigger] s[i]),
        range.0 < range.1 ==> !is_white_space(s[range.0]) && !is_white_space(s[range.1 - 1]),
    decreases s.len(),
{
    if s.len() == 0 {
        assert(s.subrange(0, 0) =~= s);
        (0, 0)
    } else if is_white_space(s.first()) {
        let rest = s.drop_first();
        let inner = law_trimmed(rest);
        assert(rest.subrange(inner.0, inner.1) =~= s.subrange(inner.0 + 1, inner.1 + 1));
        assert forall|i: int| 0 <= i < inner.0 + 1 implies is_white_space(#[trigger] s[i]) by {
            if i > 0 {
                assert(rest[i - 1] == s[i]);
            }
        }
        assert forall|i: int| inner.1 + 1 <= i < s.len() implies is_white_space(
            #[trigger] s[i],
        ) by {
            assert(rest[i - 1] == s[i]);
        }
        (inner.0 + 1, inner.1 + 1)
    } else if is_white_space(s.last()) {
        let rest = s.drop_last();
        let inner = law_trimmed(rest);
        assert(rest.subrange(inner.0, inner.1) =~= s.subrange(inner.0, inner.1));
        assert forall|i: int| 0 <= i < inner.0 implies is_white_space(#[trigger] s[i]) by {
            assert(rest[i] == s[i]);
        }
        assert forall|i: int| inner.1 <= i < s.len() implies is_white_space(#[trigger] s[i]) by {
            if i < rest.len() {
                assert(rest[i] == s[i]);
            }
        }
        inner
    } else {
        assert(s.subrange(0, s.len() as int) =~= s);
        (0, s.len() as int)
    }
}

/// Splitting at the commas loses nothing: no piece has a comma in it, and the
/// pieces joined by commas are the text.
pub proof fn law_split(s: Seq<char>)
    ensures
        split_on(s, ',').len() > 0,
        forall|i: int|
            0 <= i < split_on(s, ',').len() ==> !(#[trigger] split_on(s, ',')[i]).contains(','),
        joined(split_on(s, ',')) == s,
    decreases s.len(),
{
    lemma_split_pieces(s, ',');
    let pieces = split_on(s, ',');
    if s.len() == 0 {
        assert(joined(pieces) =~= s);
    } else {
        law_split(s.drop_last());
        let before = split_on(s.drop_last(), ',');
        assert(s =~= s.drop_last().push(s.last()));
        assert(pieces.drop_last() =~= if s.last() == ',' {
            before
        } else {
            before.drop_last()
        });
        assert(joined(pieces) =~= s);
    }
}

/// A list without commas has one item, the text without the white space at its
/// ends, unless there is nothing but white space.
pub proof fn law_list_of_one(s: Seq<char>)
    requires
        !s.contains(','),
    ensures
        (forall|i: int| 0 <= i < s.len() ==> is_white_space(#[trigger] s[i])) ==> list_items(s)
            == Seq::<Seq<char>>::empty(),
        (exists|i: int| 0 <= i < s.len() && !is_white_space(#[trigger] s[i])) ==> list_items(s)
            == seq![trimmed(s)],
{
    lemma_split_without_separator(s, ',');
    let range = law_trimmed(s);
    assert(seq![s].drop_last() =~= Seq::<Seq<char>>::empty());
    assert(seq![s].last() == s);
    reveal_with_fuel(trimmed_pieces, 2);
    if range.0 < range.1 {
        assert(!is_white_space(s[range.0]));
        assert(list_items(s) =~= seq![trimmed(s)]);
    } else {
        assert forall|i: int| 0 <= i < s.len() implies is_white_space(#[trigger] s[i]) by {}
    }
}

/// The texts of some strings are what the strings hold, in order.
pub proof fn law_texts(v: Seq<String>)
    ensures
        texts(v).len() == v.len(),
        forall|i: int| 0 <= i < v.len() ==> #[trigger] texts(v)[i] == v[i]@,
{
}

/// Lower case turns the letters `A` to `Z` into `a` to `z`, each into its own,
/// and leaves all other ASCII characters as they are.
pub proof fn law_ascii_lowercase(c: char)
    ensures
        65 <= c as u32 <= 90 ==> ascii_lowercase(c) as u32 == c as u32 + 32,
        !(65 <= c as u32 <= 90) ==> ascii_lowercase(c) == c,
{
}

} // verus!
