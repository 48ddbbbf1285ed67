//! Text helpers: substring search, splitting, decimal rendering.
use vstd::prelude::*;
use vstd::string::*;

verus! {

/// `std::string::String::push` appends one character to the end of the string.
pub assume_specification[ String::push ](s: &mut String, c: char)
    ensures
        final(s)@ == old(s)@.push(c),
;

/// `needle` stands in `hay` at position `at`.
pub open spec fn occurs_at<T>(hay: Seq<T>, needle: Seq<T>, at: int) -> bool {
    &&& 0 <= at
    &&& at + needle.len() <= hay.len()
    &&& hay.subrange(at, at + needle.len()) == needle
}

/// `needle` stands somewhere in `hay`.
pub open spec fn contains_text(hay: Seq<char>, needle: Seq<char>) -> bool {
    exists|at: int| occurs_at(hay, needle, at)
}

/// A text stands in another exactly where the other is some text, this one, and some text after
/// it.
pub proof fn contained_means_surrounded(hay: Seq<char>, needle: Seq<char>)
    ensures
        contains_text(hay, needle) <==> exists|before: Seq<char>, after: Seq<char>|
            #[trigger] (before + needle + after) == hay,
{
    if contains_text(hay, needle) {
        let at = choose|at: int| occurs_at(hay, needle, at);
        let before = hay.take(at);
        let after = hay.skip(at + needle.len());
        assert(before + needle + after =~= hay) by {
            assert forall|i: int| 0 <= i < hay.len() implies (before + needle + after)[i]
                == hay[i] by {
                if at <= i < at + needle.len() {
                    assert(hay.subrange(at, at + needle.len())[i - at] == hay[i]);
                }
            }
        }
    }
    if exists|before: Seq<char>, after: Seq<char>| #[trigger] (before + needle + after) == hay {
        let (before, after) = choose|before: Seq<char>, after: Seq<char>|
            #[trigger] (before + needle + after) == hay;
        let at = before.len() as int;
        assert(hay.subrange(at, at + needle.len()) =~= needle);
        assert(occurs_at(hay, needle, at));
    }
}

/// The characters of `s`, in order.
pub fn chars_of(s: &str) -> (out: Vec<char>)
    ensures
        out@ == s@,
{
    let mut out: Vec<char> = Vec::new();
    for c in it: s.chars()
        invariant
            out@ == it.seq().take(it.index()),
            it.seq() == s@,
    {
        out.push(c);
    }
    out
}

/// Whether the characters of `needle` stand in `hay` at position `at`.
fn matches_at(hay: &Vec<char>, needle: &Vec<char>, at: usize) -> (found: bool)
    requires
        at + needle.len() <= hay.len(),
    ensures
        found == occurs_at(hay@, needle@, at as int),
{
    let mut k: usize = 0;
    while k < needle.len()
        invariant
            at + needle.len() <= hay.len(),
            k <= needle@.len(),
            forall|j: int| 0 <= j < k ==> hay@[at + j] == needle@[j],
        decreases needle@.len() - k,
    {
        if hay[at + k] != needle[k] {
            assert(hay@.subrange(at as int, at + needle@.len())[k as int] != needle@[k as int]);
            return false;
        }
        k = k + 1;
    }
    assert(hay@.subrange(at as int, at + needle@.len()) =~= needle@);
    true
}

/// Whether `needle` stands somewhere in `hay`.
pub fn contains(hay: &Vec<char>, needle: &str) -> (found: bool)
    ensures
        found == contains_text(hay@, needle@),
{
    let pattern = chars_of(needle);
    if hay.len() < pattern.len() {
        return false;
    }
    let last: usize = hay.len() - pattern.len();
    let mut at: usize = 0;
    while at <= last
        invariant
            pattern@ == needle@,
            last == hay@.len() - pattern@.len(),
            at <= last + 1,
            forall|j: int| 0 <= j < at ==> !occurs_at(hay@, needle@, j),
        decreases last + 1 - at,
    {
        if matches_at(hay, &pattern, at) {
            return true;
        }
        if at == last {
            return false;
        }
        at = at + 1;
    }
    false
}

/// The pieces of `s` between the separators `sep`; one more piece than separators.
pub open spec fn split_on(s: Seq<char>, sep: char) -> Seq<Seq<char>>
    decreases s.len(),
{
    if s.len() == 0 {
        seq![Seq::<char>::empty()]
    } else {
        let init = split_on(s.drop_last(), sep);
        if s.last() == sep {
            init.push(Seq::<char>::empty())
        } else {
            init.drop_last().push(init.last().push(s.last()))
        }
    }
}

/// The pieces put together again, with `sep` between neighbours.
pub open spec fn join_with(pieces: Seq<Seq<char>>, sep: char) -> Seq<char>
    decreases pieces.len(),
{
    if pieces.len() == 0 {
        Seq::empty()
    } else if pieces.len() == 1 {
        pieces[0]
    } else {
        join_with(pieces.drop_last(), sep).push(sep) + pieces.last()
    }
}

/// Splitting keeps the text: the pieces hold no separator, there is at least one piece, and
/// joining them with the separator gives the text back.
pub proof fn split_then_join(s: Seq<char>, sep: char)
    ensures
        split_on(s, sep).len() >= 1,
        join_with(split_on(s, sep), sep) == s,
        forall|i: int, j: int|
            0 <= i < split_on(s, sep).len() && 0 <= j < split_on(s, sep)[i].len()
                ==> #[trigger] split_on(s, sep)[i][j] != sep,
    decreases s.len(),
{
    reveal_with_fuel(join_with, 2);
    if s.len() > 0 {
        let init = split_on(s.drop_last(), sep);
        let all = split_on(s, sep);
        split_then_join(s.drop_last(), sep);
        assert(s =~= s.drop_last().push(s.last()));
        if s.last() == sep {
            assert(all.drop_last() =~= init);
            assert(join_with(all, sep) =~= s);
        } else {
            assert(all.drop_last() =~= init.drop_last());
            assert(join_with(all, sep) =~= s);
            assert forall|i: int, j: int|
                0 <= i < all.len() && 0 <= j < all[i].len() implies #[trigger] all[i][j] != sep by {
                if i < all.len() - 1 {
                    assert(all[i] == init[i]);
                    assert(init[i][j] != sep);
                } else if j < init.last().len() {
                    assert(init[init.len() - 1][j] != sep);
                }
            }
        }
    }
}

/// The texts of a list of strings.
pub open spec fn texts(v: Seq<String>) -> Seq<Seq<char>> {
    v.map_values(|s: String| s@)
}

/// Splits `s` at every `sep`.
pub fn split(s: &str, sep: char) -> (pieces: Vec<String>)
    ensures
        texts(pieces@) == split_on(s@, sep),
        pieces@.len() == split_on(s@, sep).len(),
        forall|i: int|
            0 <= i < pieces@.len() ==> (#[trigger] pieces@[i])@ == split_on(s@, sep)[i],
{
    let all = chars_of(s);
    let mut done: Vec<String> = Vec::new();
    let mut current = String::new();
    let mut i: usize = 0;
    assert(texts(done@).push(current@) =~= split_on(s@.take(0), sep));
    while i < all.len()
        invariant
            all@ == s@,
            i <= all.len(),
            texts(done@).push(current@) == split_on(s@.take(i as int), sep),
        decreases all.len() - i,
    {
        let ghost before = texts(done@).push(current@);
        let c = all[i];
        assert(s@.take(i + 1).drop_last() =~= s@.take(i as int));
        assert(before.drop_last() =~= texts(done@));
        if c == sep {
            done.push(current);
            current = String::new();
            assert(texts(done@) =~= before);
        } else {
            current.push(c);
        }
        i = i + 1;
        assert(texts(done@).push(current@) =~= split_on(s@.take(i as int), sep));
    }
    assert(s@.take(i as int) =~= s@);
    let ghost before = texts(done@).push(current@);
    done.push(current);
    assert(texts(done@) =~= before);
    assert forall|i: int| 0 <= i < done@.len() implies (#[trigger] done@[i])@ == before[i] by {
        assert(texts(done@)[i] == done@[i]@);
    }
    done
}

/// The decimal digits of `n`, without leading zeros.
pub open spec fn decimal(n: nat) -> Seq<char>
    decreases n,
{
    if n < 10 {
        seq![digit(n)]
    } else {
        decimal(n / 10).push(digit(n % 10))
    }
}

/// The character of one decimal digit.
pub open spec fn digit(d: nat) -> char {
    ('0' as nat + d) as char
}

/// `n` in decimal, filled with zeros on the left up to `width` characters; a minus sign counts
/// as a character and stands before the zeros.
pub open spec fn zero_padded(n: int, width: nat) -> Seq<char> {
    if n < 0 {
        seq!['-'] + zero_filled(decimal((-n) as nat), (width - 1) as nat)
    } else {
        zero_filled(decimal(n as nat), width)
    }
}

/// `digits` with zeros before it, up to `width` characters.
pub open spec fn zero_filled(digits: Seq<char>, width: nat) -> Seq<char> {
    if digits.len() < width {
        Seq::new((width - digits.len()) as nat, |i: int| '0') + digits
    } else {
        digits
    }
}

/// The number that a text of decimal digits names.
pub open spec fn number_named(digits: Seq<char>) -> int
    decreases digits.len(),
{
    if digits.len() == 0 {
        0
    } else {
        10 * number_named(digits.drop_last()) + (digits.last() as int - '0' as int)
    }
}

/// Every character is a decimal digit.
pub open spec fn all_digits(text: Seq<char>) -> bool {
    forall|i: int| 0 <= i < text.len() ==> '0' <= #[trigger] text[i] && text[i] <= '9'
}

/// A number is written in decimal digits that name it, and no digit stands before it in vain.
pub proof fn decimal_names_its_number(n: nat)
    ensures
        decimal(n).len() >= 1,
        all_digits(decimal(n)),
        number_named(decimal(n)) == n,
        decimal(n).len() > 1 ==> decimal(n)[0] != '0',
    decreases n,
{
    if n >= 10 {
        decimal_names_its_number(n / 10);
        assert(decimal(n).drop_last() =~= decimal(n / 10));
        assert(decimal(n)[0] == decimal(n / 10)[0]);
        if decimal(n / 10).len() == 1 {
            assert(decimal(n / 10).drop_last() =~= Seq::<char>::empty());
            assert(number_named(decimal(n / 10).drop_last()) == 0);
        }
    } else {
        assert(decimal(n).drop_last() =~= Seq::<char>::empty());
        assert(number_named(decimal(n).drop_last()) == 0);
    }
}

/// Zeros before digits do not change the number.
proof fn zeros_name_nothing(digits: Seq<char>, zeros: nat)
    requires
        all_digits(digits),
    ensures
        number_named(Seq::new(zeros, |i: int| '0') + digits) == number_named(digits),
    decreases zeros + digits.len(),
{
    let text = Seq::new(zeros, |i: int| '0') + digits;
    if digits.len() > 0 {
        zeros_name_nothing(digits.drop_last(), zeros);
        assert(text.drop_last() =~= Seq::new(zeros, |i: int| '0') + digits.drop_last());
    } else if zeros > 0 {
        zeros_name_nothing(digits, (zeros - 1) as nat);
        assert(text.drop_last() =~= Seq::new((zeros - 1) as nat, |i: int| '0') + digits);
    }
}

/// A number that is not negative, filled up to a width: digits that name it, at least as many
/// as the width, and no more than the width where a zero was put before them; a negative number
/// is the minus sign and its size filled up to one character less.
pub proof fn zero_padded_names_its_number(n: int, width: nat)
    requires
        width >= 1,
    ensures
        n >= 0 ==> all_digits(zero_padded(n, width)) && number_named(zero_padded(n, width)) == n,
        n >= 0 ==> zero_padded(n, width).len() >= width,
        n >= 0 && zero_padded(n, width).len() > width && zero_padded(n, width).len() > 1
            ==> zero_padded(n, width)[0] != '0',
        n < 0 ==> zero_padded(n, width)[0] == '-',
        n < 0 ==> all_digits(zero_padded(n, width).skip(1)),
        n < 0 ==> number_named(zero_padded(n, width).skip(1)) == -n,
        n < 0 ==> zero_padded(n, width).len() >= width,
        n < 0 && zero_padded(n, width).len() > width ==> zero_padded(n, width)[1] != '0',
{
    let size = if n < 0 {
        (-n) as nat
    } else {
        n as nat
    };
    let room = if n < 0 {
        (width - 1) as nat
    } else {
        width
    };
    let digits = decimal(size);
    decimal_names_its_number(size);
    if digits.len() < room {
        zeros_name_nothing(digits, (room - digits.len()) as nat);
    }
    if digits.len() == 1 {
        assert(digits.drop_last() =~= Seq::<char>::empty());
        assert(number_named(digits.drop_last()) == 0);
    }
    if n < 0 {
        assert(zero_padded(n, width).skip(1) =~= zero_filled(digits, room));
    }
}

/// Appends the decimal digits of `n`.
pub fn append_decimal(out: &mut String, n: u64)
    ensures
        final(out)@ == old(out)@ + decimal(n as nat),
    decreases n,
{
    if n >= 10 {
        append_decimal(out, n / 10);
    }
    let d: u8 = (n % 10) as u8;
    out.push((48 + d) as char);
    assert(out@ =~= old(out)@ + decimal(n as nat));
}

/// Dropping the last digit and one column of width are the same thing.
proof fn zero_filled_step(n: nat, width: nat)
    requires
        width >= 2,
    ensures
        zero_filled(decimal(n), width) == zero_filled(decimal(n / 10), (width - 1) as nat).push(
            digit(n % 10),
        ),
{
    let shorter = zero_filled(decimal(n / 10), (width - 1) as nat);
    if n < 10 {
        assert(decimal(n / 10) =~= seq![digit(0)]);
        assert(zero_filled(decimal(n), width) =~= shorter.push(digit(n % 10)));
    } else {
        assert(zero_filled(decimal(n), width) =~= shorter.push(digit(n % 10)));
    }
}

/// Appends `n` in decimal, filled with zeros on the left up to `width` characters.
fn append_filled(out: &mut String, n: u64, width: u32)
    ensures
        final(out)@ == old(out)@ + zero_filled(decimal(n as nat), width as nat),
    decreases width,
{
    if width <= 1 {
        append_decimal(out, n);
        assert(decimal(n as nat).len() >= 1);
    } else {
        append_filled(out, n / 10, width - 1);
        let d: u8 = (n % 10) as u8;
        out.push((48 + d) as char);
        proof {
            zero_filled_step(n as nat, width as nat);
        }
        assert(out@ =~= old(out)@ + zero_filled(decimal(n as nat), width as nat));
    }
}

/// A number of at most `width` digits takes `width` characters.
pub proof fn zero_padded_len(n: int, width: nat)
    requires
        0 <= n,
        width == 2 && n < 100 || width == 4 && n < 10000,
    ensures
        zero_padded(n, width).len() == width,
{
    reveal_with_fuel(decimal, 5);
}

/// `a` comes before `b` in the order of texts: at the first place where they differ its character
/// is the smaller one, or it ends there.
pub open spec fn text_less(a: Seq<char>, b: Seq<char>) -> bool {
    exists|k: int| #[trigger] differ_first_at(a, b, k) && (k == a.len() || a[k] < b[k])
}

/// The first place where two texts differ: both reach it, and `b` goes on there.
pub open spec fn differ_first_at(a: Seq<char>, b: Seq<char>, k: int) -> bool {
    &&& 0 <= k <= a.len()
    &&& k < b.len()
    &&& forall|i: int| 0 <= i < k ==> a[i] == b[i]
}

/// A text does not come before itself.
pub proof fn text_less_is_strict(a: Seq<char>, b: Seq<char>)
    requires
        text_less(a, b),
    ensures
        a != b,
{
}

/// Texts of one length decide the order of longer texts that begin with them.
pub proof fn text_less_by_start(a: Seq<char>, b: Seq<char>, after_a: Seq<char>, after_b: Seq<char>)
    requires
        a.len() == b.len(),
        text_less(a, b),
    ensures
        text_less(a + after_a, b + after_b),
{
    let k = choose|k: int| #[trigger] differ_first_at(a, b, k) && (k == a.len() || a[k] < b[k]);
    assert(differ_first_at(a + after_a, b + after_b, k));
    assert((a + after_a)[k] == a[k] && (b + after_b)[k] == b[k]);
}

/// What two texts begin with alike does not matter for their order.
pub proof fn text_less_by_end(start: Seq<char>, a: Seq<char>, b: Seq<char>)
    requires
        text_less(a, b),
    ensures
        text_less(start + a, start + b),
{
    let k = choose|k: int| #[trigger] differ_first_at(a, b, k) && (k == a.len() || a[k] < b[k]);
    let at = start.len() + k;
    assert forall|i: int| 0 <= i < at implies (start + a)[i] == (start + b)[i] by {
        if i >= start.len() {
            assert(a[i - start.len()] == b[i - start.len()]);
        }
    }
    assert(differ_first_at(start + a, start + b, at));
    assert((start + b)[at] == b[k]);
    if k < a.len() {
        assert((start + a)[at] == a[k]);
    }
}

/// The two digits of a small number.
proof fn two_digits(n: int)
    requires
        0 <= n < 100,
    ensures
        zero_padded(n, 2) == seq![digit((n / 10) as nat), digit((n % 10) as nat)],
{
    reveal_with_fuel(decimal, 3);
    assert(zero_padded(n, 2) =~= seq![digit((n / 10) as nat), digit((n % 10) as nat)]);
}

/// The four digits of a number are those of its hundreds and those of what is left.
proof fn four_digits(n: int)
    requires
        0 <= n < 10000,
    ensures
        zero_padded(n, 4) == zero_padded(n / 100, 2) + zero_padded(n % 100, 2),
{
    let a = (n / 10) as nat;
    zero_filled_step(n as nat, 4);
    zero_filled_step(a, 3);
    assert(a / 10 == n / 100);
    two_digits(n / 100);
    two_digits(n % 100);
    assert(zero_filled(decimal((n / 100) as nat), 2) == zero_padded(n / 100, 2));
    assert((n % 100) / 10 == a % 10);
    assert((n % 100) % 10 == n % 10);
    assert(zero_padded(n, 4) =~= zero_padded(n / 100, 2) + zero_padded(n % 100, 2));
}

/// Of numbers with two or four digits the smaller one has the smaller text.
pub proof fn zero_padded_keeps_order(n: int, m: int, width: nat)
    requires
        0 <= n < m,
        width == 2 && m < 100 || width == 4 && m < 10000,
    ensures
        text_less(zero_padded(n, width), zero_padded(m, width)),
    decreases width,
{
    if width == 2 {
        two_digits(n);
        two_digits(m);
        let k: int = if n / 10 == m / 10 {
            1
        } else {
            0
        };
        assert(differ_first_at(zero_padded(n, 2), zero_padded(m, 2), k));
    } else {
        four_digits(n);
        four_digits(m);
        zero_padded_len(n / 100, 2);
        zero_padded_len(m / 100, 2);
        if n / 100 == m / 100 {
            zero_padded_keeps_order(n % 100, m % 100, 2);
            text_less_by_end(
                zero_padded(n / 100, 2),
                zero_padded(n % 100, 2),
                zero_padded(m % 100, 2),
            );
        } else {
            zero_padded_keeps_order(n / 100, m / 100, 2);
            text_less_by_start(
                zero_padded(n / 100, 2),
                zero_padded(m / 100, 2),
                zero_padded(n % 100, 2),
                zero_padded(m % 100, 2),
            );
        }
    }
}

/// Appends `n` in decimal, sign first, filled with zeros up to `width` characters.
pub fn append_padded(out: &mut String, n: i64, width: u32)
    requires
        width >= 1,
    ensures
        final(out)@ == old(out)@ + zero_padded(n as int, width as nat),
{
    if n < 0 {
        out.push('-');
        let size: u64 = (-(n as i128)) as u64;
        append_filled(out, size, width - 1);
        assert(out@ =~= old(out)@ + zero_padded(n as int, width as nat));
    } else {
        append_filled(out, n as u64, width);
    }
}

/// The names of a list, as a set.
pub open spec fn name_set(names: Seq<String>) -> Set<Seq<char>> {
    Set::new(|name: Seq<char>| exists|i: int| 0 <= i < names.len() && (#[trigger] names[i])@ == name)
}

/// Whether a list holds a name.
pub fn has_name(names: &Vec<String>, name: &String) -> (found: bool)
    ensures
        found == name_set(names@).contains(name@),
        found <==> exists|i: int| 0 <= i < names@.len() && (#[trigger] names@[i])@ == name@,
{
    let mut i: usize = 0;
    while i < names.len()
        invariant
            i <= names.len(),
            forall|k: int| 0 <= k < i ==> (#[trigger] names@[k])@ != name@,
        decreases names.len() - i,
    {
        if names[i] == *name {
            assert(names@[i as int]@ == name@);
            return true;
        }
        i = i + 1;
    }
    false
}

/// Adds a name to a list that does not hold it yet.
pub fn add_name(names: &mut Vec<String>, name: &String)
    ensures
        name_set(final(names)@) == name_set(old(names)@).insert(name@),
        final(names)@ == old(names)@ || (final(names)@.len() == old(names)@.len() + 1 && final(
            names)@.drop_last() == old(names)@ && final(names)@.last()@ == name@),
        exists|i: int| 0 <= i < final(names)@.len() && (#[trigger] final(names)@[i])@ == name@,
{
    if !has_name(names, name) {
        names.push(name.clone());
        proof {
            let before = old(names)@;
            assert forall|n: Seq<char>| name_set(names@).contains(n) == name_set(before).insert(
                name@,
            ).contains(n) by {
                if name_set(before).contains(n) {
                    let i = choose|i: int| 0 <= i < before.len() && (#[trigger] before[i])@ == n;
                    assert(names@[i]@ == n);
                }
                if n == name@ {
                    assert(names@[before.len() as int]@ == n);
                }
            }
        }
    }
    assert(name_set(names@) =~= name_set(old(names)@).insert(name@));
    assert(name_set(names@).contains(name@));
    assert(names@ == old(names)@ || names@.drop_last() =~= old(names)@);
}

/// A copy of a list of names.
pub fn copy_names(names: &Vec<String>) -> (copy: Vec<String>)
    ensures
        copy@ == names@,
{
    let mut copy: Vec<String> = Vec::new();
    while copy.len() < names.len()
        invariant
            copy@.len() <= names@.len(),
            copy@ == names@.take(copy@.len() as int),
        decreases names.len() - copy.len(),
    {
        let name = names[copy.len()].clone();
        copy.push(name);
        assert(copy@ =~= names@.take(copy@.len() as int));
    }
    assert(copy@ =~= names@);
    copy
}

/// Whether a string is a given text.
pub fn is_text(s: &String, text: &str) -> (same: bool)
    ensures
        same == (s@ == text@),
{
    *s == text.to_owned()
}

} // verus!
