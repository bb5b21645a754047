//! Strings: decimal numbers, joined lists, trimmed text and slash-separated paths.

use vstd::prelude::*;
use vstd::string::*;

verus! {

/// The character of a decimal digit.
pub open spec fn digit(d: nat) -> char {
    ('0' as nat + d) as char
}

/// A natural number in decimal, without leading zeros.
pub open spec fn decimal(n: nat) -> Seq<char>
    decreases n,
{
    if n < 10 {
        seq![digit(n)]
    } else {
        decimal(n / 10).push(digit(n % 10))
    }
}

/// An integer in decimal, with a leading minus sign where it is negative.
pub open spec fn signed_decimal(i: int) -> Seq<char> {
    if i < 0 {
        seq!['-'] + decimal((-i) as nat)
    } else {
        decimal(i as nat)
    }
}

/// The number that a string of digits stands for.
pub open spec fn value_of(s: Seq<char>) -> int
    decreases s.len(),
{
    if s.len() == 0 {
        0
    } else {
        value_of(s.drop_last()) * 10 + (s.last() as int - '0' as int)
    }
}

/// `s` with as many copies of `fill` in front as bring it to `width` characters.
pub open spec fn pad_left(s: Seq<char>, width: nat, fill: char) -> Seq<char> {
    if s.len() < width {
        Seq::new((width - s.len()) as nat, |i: int| fill) + s
    } else {
        s
    }
}

/// The parts one after the other, with `sep` between neighbours.
pub open spec fn joined(parts: Seq<Seq<char>>, sep: Seq<char>) -> Seq<char>
    decreases parts.len(),
{
    if parts.len() == 0 {
        Seq::empty()
    } else if parts.len() == 1 {
        parts[0]
    } else {
        joined(parts.drop_last(), sep) + sep + parts.last()
    }
}

/// The characters of each string of a list.
pub open spec fn views(list: Seq<String>) -> Seq<Seq<char>> {
    Seq::new(list.len(), |i: int| list[i]@)
}

/// Whether a character has Unicode's `White_Space` property.
pub open spec fn white_space(c: char) -> bool {
    let u = c as u32;
    ||| 0x09 <= u <= 0x0d
    ||| u == 0x20
    ||| u == 0x85
    ||| u == 0xa0
    ||| u == 0x1680
    ||| 0x2000 <= u <= 0x200a
    ||| u == 0x2028
    ||| u == 0x2029
    ||| u == 0x202f
    ||| u == 0x205f
    ||| u == 0x3000
}

/// Whether `t` is `s` without the white space at both of its ends.
pub open spec fn is_trimmed(s: Seq<char>, t: Seq<char>) -> bool {
    exists|from: int, to: int|
        #![trigger s.subrange(from, to)]
        {
            &&& 0 <= from <= to <= s.len()
            &&& t == s.subrange(from, to)
            &&& forall|i: int| 0 <= i < from ==> white_space(#[trigger] s[i])
            &&& forall|i: int| to <= i < s.len() ==> white_space(#[trigger] s[i])
            &&& from < to ==> !white_space(s[from]) && !white_space(s[to - 1])
            &&& from == to ==> from == s.len()
        }
}

/// The path of `name` inside the directory `base`: an absolute `name` stands for
/// itself, and a slash is put between the two where `base` does not end in one.
pub open spec fn path_in(base: Seq<char>, name: Seq<char>) -> Seq<char> {
    if name.len() > 0 && name[0] == '/' {
        name
    } else if base.len() == 0 || base.last() == '/' {
        base + name
    } else {
        base.push('/') + name
    }
}

/// A decimal digit as a string.
fn digit_str(d: u8) -> (r: &'static str)
    requires
        d < 10,
    ensures
        r@ == seq![digit(d as nat)],
{
    proof {
        reveal_strlit("0");
        reveal_strlit("1");
        reveal_strlit("2");
        reveal_strlit("3");
        reveal_strlit("4");
        reveal_strlit("5");
        reveal_strlit("6");
        reveal_strlit("7");
        reveal_strlit("8");
        reveal_strlit("9");
    }
    match d {
        0 => "0",
        1 => "1",
        2 => "2",
        3 => "3",
        4 => "4",
        5 => "5",
        6 => "6",
        7 => "7",
        8 => "8",
        _ => "9",
    }
}

/// Writes a number in decimal.
pub fn write_decimal(n: u128) -> (r: String)
    ensures
        r@ == decimal(n as nat),
    decreases n,
{
    if n < 10 {
        let mut s = String::new();
        s.append(digit_str(n as u8));
        s
    } else {
        let mut s = write_decimal(n / 10);
        s.append(digit_str((n % 10) as u8));
        s
    }
}

/// Writes a signed number in decimal.
pub fn write_signed(i: i128) -> (r: String)
    ensures
        r@ == signed_decimal(i as int),
{
    if i < 0 {
        proof {
            reveal_strlit("-");
        }
        let magnitude: u128 = (-(i + 1)) as u128 + 1;
        let mut s = String::new();
        s.append("-");
        s.append(write_decimal(magnitude).as_str());
        s
    } else {
        write_decimal(i as u128)
    }
}

/// Puts copies of the one-character string `fill` in front of `s` up to a width.
pub fn write_padded(s: &str, width: usize, fill: &str) -> (r: String)
    requires
        fill@.len() == 1,
    ensures
        r@ == pad_left(s@, width as nat, fill@[0]),
{
    let len: usize = s.unicode_len();
    let mut r = String::new();
    if len < width {
        let missing: usize = width - len;
        for i in 0..missing
            invariant
                fill@.len() == 1,
                r@ == Seq::new(i as nat, |j: int| fill@[0]),
        {
            r.append(fill);
            assert(r@ =~= Seq::new((i + 1) as nat, |j: int| fill@[0]));
        }
    }
    r.append(s);
    r
}

/// Joins the strings of a list.
pub fn join(parts: &Vec<String>, sep: &str) -> (r: String)
    ensures
        r@ == joined(views(parts@), sep@),
{
    let mut r = String::new();
    for i in 0..parts.len()
        invariant
            r@ == joined(views(parts@).take(i as int), sep@),
    {
        let ghost all = views(parts@);
        if i > 0 {
            r.append(sep);
        }
        r.append(parts[i].as_str());
        proof {
            assert(all.take(i + 1).drop_last() =~= all.take(i as int));
            assert(all.take(i + 1).last() == parts@[i as int]@);
            if i == 0 {
                assert(all.take(1)[0] == parts@[0]@);
            }
        }
    }
    assert(views(parts@).take(parts@.len() as int) =~= views(parts@));
    r
}

/// Whether a character is white space.
pub fn is_white_space(c: char) -> (r: bool)
    ensures
        r == white_space(c),
{
    let u: u32 = c as u32;
    (0x09 <= u && u <= 0x0d) || u == 0x20 || u == 0x85 || u == 0xa0 || u == 0x1680 || (0x2000 <= u
        && u <= 0x200a) || u == 0x2028 || u == 0x2029 || u == 0x202f || u == 0x205f || u == 0x3000
}

/// Removes the white space at both ends of a string.
pub fn trim(s: &str) -> (r: String)
    ensures
        is_trimmed(s@, r@),
{
    let len: usize = s.unicode_len();
    let mut from: usize = 0;
    while from < len && is_white_space(s.get_char(from))
        invariant
            from <= len,
            len == s@.len(),
            forall|i: int| 0 <= i < from ==> white_space(#[trigger] s@[i]),
        decreases len - from,
    {
        from = from + 1;
    }
    let mut to: usize = len;
    while from < to && is_white_space(s.get_char(to - 1))
        invariant
            from <= to <= len,
            len == s@.len(),
            forall|i: int| to <= i < len ==> white_space(#[trigger] s@[i]),
            from < len ==> !white_space(s@[from as int]),
            from < len ==> from < to,
        decreases to - from,
    {
        to = to - 1;
    }
    assert(s@.subrange(from as int, to as int) == s@.subrange(from as int, to as int));
    s.substring_char(from, to).to_owned()
}

/// The path of `name` inside the directory `base`.
pub fn join_path(base: &str, name: &str) -> (r: String)
    ensures
        r@ == path_in(base@, name@),
{
    let mut r = String::new();
    if name.unicode_len() > 0 && name.get_char(0) == '/' {
        r.append(name);
        return r;
    }
    r.append(base);
    let len: usize = base.unicode_len();
    if len > 0 && base.get_char(len - 1) != '/' {
        proof {
            reveal_strlit("/");
        }
        r.append("/");
        assert(r@ =~= base@.push('/'));
    }
    r.append(name);
    r
}

/// A decimal number reads back as the number that was written.
pub proof fn decimal_reads_back(n: nat)
    ensures
        value_of(decimal(n)) == n,
    decreases n,
{
    if n < 10 {
        assert(decimal(n).drop_last() =~= Seq::<char>::empty());
        reveal_with_fuel(value_of, 2);
    } else {
        decimal_reads_back(n / 10);
        assert(decimal(n).drop_last() =~= decimal(n / 10));
    }
}

/// A decimal number is made of digits, of at least one.
pub proof fn decimal_is_digits(n: nat)
    ensures
        decimal(n).len() > 0,
        forall|i: int| 0 <= i < decimal(n).len() ==> '0' <= #[trigger] decimal(n)[i] <= '9',
    decreases n,
{
    if n >= 10 {
        decimal_is_digits(n / 10);
    }
}

/// Different integers have different decimals.
pub proof fn signed_decimals_differ(i: int, j: int)
    requires
        signed_decimal(i) == signed_decimal(j),
    ensures
        i == j,
{
    let (a, b) = (vstd::math::abs(i), vstd::math::abs(j));
    decimal_is_digits(a);
    decimal_is_digits(b);
    decimal_reads_back(a);
    decimal_reads_back(b);
    assert(decimal(a)[0] != '-' && decimal(b)[0] != '-');
    assert(signed_decimal(i)[0] == '-' <==> i < 0);
    assert(signed_decimal(j)[0] == '-' <==> j < 0);
    if i < 0 {
        assert(signed_decimal(i).skip(1) =~= decimal(a));
        assert(signed_decimal(j).skip(1) =~= decimal(b));
    }
}

/// Leading zeros do not change the number that a string of digits stands for.
pub proof fn padding_keeps_value(s: Seq<char>, width: nat)
    ensures
        value_of(pad_left(s, width, '0')) == value_of(s),
    decreases width, s.len(),
{
    let p = pad_left(s, width, '0');
    if s.len() < width {
        if s.len() == 0 {
            assert(p.drop_last() =~= pad_left(s, (width - 1) as nat, '0'));
            padding_keeps_value(s, (width - 1) as nat);
        } else {
            assert(p.drop_last() =~= pad_left(s.drop_last(), (width - 1) as nat, '0'));
            padding_keeps_value(s.drop_last(), (width - 1) as nat);
        }
    }
}

/// Decimals go digit by digit: one digit stands for itself, and the last digit follows
/// those of the number without it.
pub proof fn decimals_go_digit_by_digit(n: nat, d: nat)
    requires
        d < 10,
    ensures
        decimal(d).len() == 1,
        decimal(d)[0] as int == '0' as int + d,
        n > 0 ==> {
            let longer = decimal(10 * n + d);
            &&& longer.len() == decimal(n).len() + 1
            &&& longer.last() as int == '0' as int + d
            &&& longer.drop_last() == decimal(n)
        },
{
    if n > 0 {
        assert((10 * n + d) / 10 == n && (10 * n + d) % 10 == d);
        assert(decimal(10 * n + d).drop_last() =~= decimal(n));
    }
}

/// A signed decimal is the decimal, with a minus sign in front where the number is below
/// zero.
pub proof fn signs_stand_in_front(i: int)
    ensures
        i >= 0 ==> signed_decimal(i) == decimal(i as nat),
        i < 0 ==> {
            &&& signed_decimal(i).len() == decimal((-i) as nat).len() + 1
            &&& signed_decimal(i)[0] == '-'
            &&& signed_decimal(i).drop_first() == decimal((-i) as nat)
        },
{
    if i < 0 {
        assert(signed_decimal(i).drop_first() =~= decimal((-i) as nat));
    }
}

/// Padding only fills up in front, and only where characters are missing.
pub proof fn padding_stands_in_front(s: Seq<char>, width: nat, fill: char)
    ensures
        ({
            let p = pad_left(s, width, fill);
            let missing = p.len() - s.len();
            &&& p.len() == if s.len() < width {
                width
            } else {
                s.len()
            }
            &&& forall|i: int| 0 <= i < missing ==> #[trigger] p[i] == fill
            &&& p.skip(missing) == s
        }),
{
    let p = pad_left(s, width, fill);
    assert(p.skip(p.len() - s.len()) =~= s);
}

/// A joined list grows by a separator and the next part.
pub proof fn joined_lists_grow(parts: Seq<Seq<char>>, next: Seq<char>, sep: Seq<char>)
    ensures
        joined(Seq::empty(), sep).len() == 0,
        joined(seq![next], sep) == next,
        parts.len() > 0 ==> joined(parts.push(next), sep) == joined(parts, sep) + sep + next,
{
    assert(parts.push(next).drop_last() =~= parts);
}

/// What is trimmed away is white space, and what is left neither begins nor ends with it.
pub proof fn trimming_takes_white_space(s: Seq<char>, t: Seq<char>)
    requires
        is_trimmed(s, t),
    ensures
        t.len() > 0 ==> !white_space(t[0]) && !white_space(t.last()),
        t.len() == 0 ==> forall|i: int| 0 <= i < s.len() ==> white_space(#[trigger] s[i]),
        exists|from: int, to: int|
            #![trigger s.subrange(from, to)]
            {
                &&& 0 <= from <= to <= s.len()
                &&& s.subrange(from, to) == t
                &&& forall|i: int| 0 <= i < from || to <= i < s.len() ==> white_space(#[trigger] s[i])
            },
{
    let (from, to) = choose|from: int, to: int|
        #![trigger s.subrange(from, to)]
        {
            &&& 0 <= from <= to <= s.len()
            &&& t == s.subrange(from, to)
            &&& forall|i: int| 0 <= i < from ==> white_space(#[trigger] s[i])
            &&& forall|i: int| to <= i < s.len() ==> white_space(#[trigger] s[i])
            &&& from < to ==> !white_space(s[from]) && !white_space(s[to - 1])
            &&& from == to ==> from == s.len()
        };
    assert(s.subrange(from, to) == t);
}

/// A path in a directory is the directory, a slash unless it ends in one or is empty, and
/// the name; an absolute name is the whole path.
pub proof fn paths_are_put_together(base: Seq<char>, name: Seq<char>)
    ensures
        name.len() > 0 && name[0] == '/' ==> path_in(base, name) == name,
        !(name.len() > 0 && name[0] == '/') && base.len() > 0 && base.last() != '/' ==> path_in(
            base,
            name,
        ) == base + seq!['/'] + name,
        !(name.len() > 0 && name[0] == '/') && (base.len() == 0 || base.last() == '/') ==> path_in(
            base,
            name,
        ) == base + name,
{
    assert(base.push('/') =~= base + seq!['/']);
}

/// White space, told by code points: the blank, tab to carriage return, and those beyond
/// ASCII.
pub proof fn white_space_is_listed(c: char)
    ensures
        c as u32 <= 0x7f ==> (white_space(c) <==> c == ' ' || 0x09 <= c as u32 <= 0x0d),
        c as u32 > 0x7f ==> (white_space(c) <==> c as u32 == 0x85 || c as u32 == 0xa0 || c as u32
            == 0x1680 || 0x2000 <= c as u32 <= 0x200a || c as u32 == 0x2028 || c as u32 == 0x2029
            || c as u32 == 0x202f || c as u32 == 0x205f || c as u32 == 0x3000),
{
}

/// The strings of a list, one by one, as they are.
pub proof fn views_are_the_strings(list: Seq<String>)
    ensures
        views(list).len() == list.len(),
        forall|i: int| 0 <= i < list.len() ==> #[trigger] views(list)[i] == list[i]@,
{
}

} // verus!
