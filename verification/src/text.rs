//! Text: decimal integers and integer lists, as messages show them, and the
//! characters of a string.
use vstd::prelude::*;

verus! {

/// The character of a decimal digit.
pub open spec fn digit(d: int) -> char {
    (48 + d) as char
}

/// The decimal digits of a natural number.
pub open spec fn decimal(n: nat) -> Seq<char>
    decreases n,
{
    if n < 10 {
        seq![digit(n as int)]
    } else {
        decimal(n / 10).push(digit((n % 10) as int))
    }
}

/// The decimal text of an integer, with a minus sign where it is negative.
pub open spec fn decimal_int(x: int) -> Seq<char> {
    if x < 0 {
        "-"@ + decimal((-x) as nat)
    } else {
        decimal(x as nat)
    }
}

/// The items of a list separated by a comma and a space.
pub open spec fn joined(items: Seq<int>) -> Seq<char>
    decreases items.len(),
{
    if items.len() == 0 {
        Seq::empty()
    } else if items.len() == 1 {
        decimal_int(items[0])
    } else {
        joined(items.drop_last()) + ", "@ + decimal_int(items.last())
    }
}

/// A list between square brackets.
pub open spec fn list_text(items: Seq<int>) -> Seq<char> {
    "["@ + joined(items) + "]"@
}

/// The integers of a sequence of `i32`.
pub open spec fn ints_of_i32(s: Seq<i32>) -> Seq<int> {
    s.map_values(|x: i32| x as int)
}

/// The integers of a sequence of `usize`.
pub open spec fn ints_of_usize(s: Seq<usize>) -> Seq<int> {
    s.map_values(|x: usize| x as int)
}

/// One decimal digit as text.
fn digit_str(d: u64) -> (r: &'static str)
    requires
        d < 10,
    ensures
        r@ == seq![digit(d as int)],
{
    proof {
        reveal_strlit("0");
        reveal_strlit("1");
        reveal_strlit("2");
        reveal_strlit("3");
        reveal_strlit("4");
        reveal_strlit("5");
        reveal_strlit("6");
        reveal_strlit("7");
        reveal_strlit("8");
        reveal_strlit("9");
    }
    let r = match d {
        0 => "0",
        1 => "1",
        2 => "2",
        3 => "3",
        4 => "4",
        5 => "5",
        6 => "6",
        7 => "7",
        8 => "8",
        _ => "9",
    };
    assert(r@ =~= seq![digit(d as int)]);
    r
}

/// Appends the decimal text of `n`.
pub fn push_u64(out: &mut String, n: u64)
    ensures
        final(out)@ == old(out)@ + decimal(n as nat),
    decreases n,
{
    if n >= 10 {
        push_u64(out, n / 10);
    }
    let d = digit_str(n % 10);
    out.append(d);
    proof {
        if n >= 10 {
            assert(decimal(n as nat) == decimal((n / 10) as nat).push(digit((n % 10) as int)));
        }
    }
    assert(out@ =~= old(out)@ + decimal(n as nat));
}

/// Appends the decimal text of a wide `n`.
pub fn push_u128(out: &mut String, n: u128)
    ensures
        final(out)@ == old(out)@ + decimal(n as nat),
    decreases n,
{
    if n >= 10 {
        push_u128(out, n / 10);
    }
    let d = digit_str((n % 10) as u64);
    out.append(d);
    proof {
        if n >= 10 {
            assert(decimal(n as nat) == decimal((n / 10) as nat).push(digit((n % 10) as int)));
        }
    }
    assert(out@ =~= old(out)@ + decimal(n as nat));
}

/// Appends the decimal text of a signed `n`.
pub fn push_i64(out: &mut String, n: i64)
    ensures
        final(out)@ == old(out)@ + decimal_int(n as int),
{
    if n < 0 {
        out.append("-");
        if n == i64::MIN {
            push_u64(out, 9223372036854775808);
        } else {
            push_u64(out, (-n) as u64);
        }
    } else {
        push_u64(out, n as u64);
    }
    assert(out@ =~= old(out)@ + decimal_int(n as int));
}

/// Appends a list of `i32`.
pub fn push_i32_list(out: &mut String, items: &[i32])
    ensures
        final(out)@ == old(out)@ + list_text(ints_of_i32(items@)),
{
    out.append("[");
    let ghost base = out@;
    let mut i: usize = 0;
    while i < items.len()
        invariant
            i <= items.len(),
            out@ == base + joined(ints_of_i32(items@).take(i as int)),
        decreases items.len() - i,
    {
        if i > 0 {
            out.append(", ");
        }
        push_i64(out, items[i] as i64);
        proof {
            let all = ints_of_i32(items@);
            assert(all.take(i + 1).drop_last() =~= all.take(i as int));
            assert(all.take(i + 1).last() == items[i as int]);
            if i == 0 {
                assert(joined(all.take(1)) == decimal_int(items[0] as int));
                assert(joined(all.take(0)) =~= Seq::empty());
            }
            assert(out@ =~= base + joined(all.take(i + 1)));
        }
        i += 1;
    }
    assert(ints_of_i32(items@).take(i as int) =~= ints_of_i32(items@));
    out.append("]");
    assert(out@ =~= old(out)@ + list_text(ints_of_i32(items@)));
}

/// Appends a list of `usize`.
pub fn push_usize_list(out: &mut String, items: &[usize])
    ensures
        final(out)@ == old(out)@ + list_text(ints_of_usize(items@)),
{
    out.append("[");
    let ghost base = out@;
    let mut i: usize = 0;
    while i < items.len()
        invariant
            i <= items.len(),
            out@ == base + joined(ints_of_usize(items@).take(i as int)),
        decreases items.len() - i,
    {
        if i > 0 {
            out.append(", ");
        }
        push_u64(out, items[i] as u64);
        proof {
            let all = ints_of_usize(items@);
            assert(all.take(i + 1).drop_last() =~= all.take(i as int));
            assert(all.take(i + 1).last() == items[i as int]);
            if i == 0 {
                assert(joined(all.take(1)) == decimal_int(items[0] as int));
                assert(joined(all.take(0)) =~= Seq::empty());
            }
            assert(out@ =~= base + joined(all.take(i + 1)));
        }
        i += 1;
    }
    assert(ints_of_usize(items@).take(i as int) =~= ints_of_usize(items@));
    out.append("]");
    assert(out@ =~= old(out)@ + list_text(ints_of_usize(items@)));
}

/// The characters of a text.
pub fn chars_of(s: &str) -> (r: Vec<char>)
    ensures
        r@ == s@,
{
    let n = s.unicode_len();
    let mut out: Vec<char> = Vec::new();
    let mut i: usize = 0;
    while i < n
        invariant
            n == s@.len(),
            i <= n,
            out@ == s@.take(i as int),
        decreases n - i,
    {
        out.push(s.get_char(i));
        assert(s@.take(i + 1) =~= s@.take(i as int).push(s@[i as int]));
        i += 1;
    }
    assert(s@.take(i as int) =~= s@);
    out
}

/// Whether two texts are equal.
pub fn same_text(a: &str, b: &str) -> (r: bool)
    ensures
        r == (a@ == b@),
{
    let x = a.to_owned();
    let y = b.to_owned();
    x == y
}

/// The texts of a list of strings.
pub open spec fn texts(s: Seq<String>) -> Seq<Seq<char>> {
    s.map_values(|t: String| t@)
}

/// Appends copies of strings.
pub fn push_texts(out: &mut Vec<String>, items: &Vec<String>)
    ensures
        texts(final(out)@) == texts(old(out)@) + texts(items@),
{
    let ghost base = texts(out@);
    let mut i: usize = 0;
    while i < items.len()
        invariant
            i <= items.len(),
            texts(out@) == base + texts(items@).take(i as int),
        decreases items.len() - i,
    {
        let t = items[i].clone();
        let ghost before = out@;
        out.push(t);
        assert(texts(out@) =~= texts(before).push(items@[i as int]@));
        assert(texts(items@).take(i + 1) =~= texts(items@).take(i as int).push(items@[i as int]@));
        assert(texts(out@) =~= base + texts(items@).take(i + 1));
        i += 1;
    }
    assert(texts(items@).take(i as int) =~= texts(items@));
}

/// Appends one string.
pub fn push_text(out: &mut Vec<String>, item: String)
    ensures
        texts(final(out)@) == texts(old(out)@).push(item@),
{
    out.push(item);
    assert(texts(out@) =~= texts(old(out)@).push(item@));
}

/// Two texts joined.
pub fn join2(a: &str, b: &str) -> (r: String)
    ensures
        r@ == a@ + b@,
{
    let mut out = a.to_owned();
    out.append(b);
    out
}

/// Four texts joined.
pub fn join4(a: &str, b: &str, c: &str, d: &str) -> (r: String)
    ensures
        r@ == a@ + b@ + c@ + d@,
{
    let mut out = a.to_owned();
    out.append(b);
    out.append(c);
    out.append(d);
    out
}

/// The decimal text of a number has digits only, spells the number, and has no leading
/// zero: let `values` be the numbers that its leading digits spell.
pub proof fn decimal_text_spells_the_number(n: nat, values: Seq<int>)
    requires
        values.len() == decimal(n).len() + 1,
        values[0] == 0,
        forall|i: int|
            0 <= i < decimal(n).len() ==> values[i + 1] == values[i] * 10 + (
            (#[trigger] decimal(n)[i]) as int - 0x30),
    ensures
        decimal(n).len() >= 1,
        forall|i: int| 0 <= i < decimal(n).len() ==> '0' <= #[trigger] decimal(n)[i] <= '9',
        values.last() == n,
        n > 0 ==> decimal(n)[0] != '0',
        n == 0 ==> decimal(n) == seq!['0'],
    decreases n,
{
    if n < 10 {
        assert(decimal(n)[0] == digit(n as int));
        assert(values[1] == values[0] * 10 + (decimal(n)[0] as int - 0x30));
    } else {
        let (d, m) = (decimal(n), (n / 10) as nat);
        let shorter = values.drop_last();
        assert(d =~= decimal(m).push(digit((n % 10) as int)));
        assert forall|i: int| 0 <= i < decimal(m).len() implies shorter[i + 1] == shorter[i] * 10 + (
        (#[trigger] decimal(m)[i]) as int - 0x30) by {
            assert(d[i] == decimal(m)[i]);
            assert(values[i + 1] == values[i] * 10 + (d[i] as int - 0x30));
        }
        decimal_text_spells_the_number(m, shorter);
        let k = decimal(m).len() as int;
        assert(d[k] == digit((n % 10) as int));
        assert(values[k + 1] == values[k] * 10 + (d[k] as int - 0x30));
        assert forall|i: int| 0 <= i < d.len() implies '0' <= #[trigger] d[i] <= '9' by {
            if i < k {
                assert(d[i] == decimal(m)[i]);
            }
        }
        assert(d[0] == decimal(m)[0]);
    }
}

/// A negative number is its magnitude after a minus sign, any other its digits.
pub proof fn a_minus_sign_marks_negative_numbers(x: int)
    ensures
        x >= 0 ==> decimal_int(x) == decimal(x as nat),
        x < 0 ==> decimal_int(x)[0] == '-' && decimal_int(x).skip(1) == decimal((-x) as nat),
{
    reveal_strlit("-");
    if x < 0 {
        assert(decimal_int(x).skip(1) =~= decimal((-x) as nat));
    }
}

/// A list grows by a comma, a space and the next item.
pub proof fn lists_are_separated_by_commas(items: Seq<int>, x: int)
    ensures
        joined(Seq::empty()) == Seq::<char>::empty(),
        joined(seq![x]) == decimal_int(x),
        items.len() > 0 ==> joined(items.push(x)) == joined(items) + seq![',', ' '] + decimal_int(x),
        list_text(items) == seq!['['] + joined(items) + seq![']'],
{
    reveal_strlit(", ");
    reveal_strlit("[");
    reveal_strlit("]");
    assert(", "@ =~= seq![',', ' ']);
    assert("["@ =~= seq!['[']);
    assert("]"@ =~= seq![']']);
    assert(items.push(x).drop_last() =~= items);
    assert(joined(items.push(x)) == if items.len() == 0 {
        decimal_int(x)
    } else {
        joined(items) + ", "@ + decimal_int(x)
    });
}

/// Integers and texts are taken one by one, in order.
pub proof fn items_are_taken_in_order(s: Seq<i32>, u: Seq<usize>, t: Seq<String>)
    ensures
        ints_of_i32(s).len() == s.len(),
        forall|i: int| 0 <= i < s.len() ==> #[trigger] ints_of_i32(s)[i] == s[i],
        ints_of_usize(u).len() == u.len(),
        forall|i: int| 0 <= i < u.len() ==> #[trigger] ints_of_usize(u)[i] == u[i],
        texts(t).len() == t.len(),
        forall|i: int| 0 <= i < t.len() ==> #[trigger] texts(t)[i] == t[i]@,
{
}

} // verus!
