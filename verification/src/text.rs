//! Names as text: equality, order, dotted paths and decimal numbers.

use vstd::prelude::*;

verus! {

/// The text before each separator and after the last one, put together again.
pub open spec fn joined(parts: Seq<Seq<char>>, sep: Seq<char>) -> Seq<char>
    decreases parts.len(),
{
    if parts.len() == 0 {
        Seq::empty()
    } else if parts.len() == 1 {
        parts[0]
    } else {
        joined(parts.drop_last(), sep) + sep + parts.last()
    }
}

/// `prefix.name`.
pub open spec fn dotted(prefix: Seq<char>, name: Seq<char>) -> Seq<char> {
    prefix + seq!['.'] + name
}

/// What follows the last dot of `s`; all of `s` where it has none.
pub open spec fn last_segment(s: Seq<char>) -> Seq<char>
    decreases s.len(),
{
    if s.len() == 0 || s.last() == '.' {
        Seq::empty()
    } else {
        last_segment(s.drop_last()).push(s.last())
    }
}

/// What stands before the last dot of `s`, where it has one.
pub open spec fn before_last_dot(s: Seq<char>) -> Option<Seq<char>> {
    if s.contains('.') {
        Some(s.take(s.len() - last_segment(s).len() - 1))
    } else {
        None
    }
}

/// `s` with every dot made an underscore.
pub open spec fn underscored(s: Seq<char>) -> Seq<char> {
    s.map_values(|c: char| if c == '.' { '_' } else { c })
}

/// The decimal digits of `n`.
pub open spec fn decimal(n: nat) -> Seq<char>
    decreases n,
{
    if n < 10 {
        seq![digit(n)]
    } else {
        decimal(n / 10).push(digit(n % 10))
    }
}

pub open spec fn digit(n: nat) -> char {
    if n == 0 {
        '0'
    } else if n == 1 {
        '1'
    } else if n == 2 {
        '2'
    } else if n == 3 {
        '3'
    } else if n == 4 {
        '4'
    } else if n == 5 {
        '5'
    } else if n == 6 {
        '6'
    } else if n == 7 {
        '7'
    } else if n == 8 {
        '8'
    } else {
        '9'
    }
}

/// The order of names: by the first character that differs, a proper prefix
/// before the longer name.
pub open spec fn text_le(a: Seq<char>, b: Seq<char>) -> bool
    decreases a.len(),
{
    if a.len() == 0 {
        true
    } else if b.len() == 0 {
        false
    } else if a[0] != b[0] {
        a[0] < b[0]
    } else {
        text_le(a.drop_first(), b.drop_first())
    }
}

/// The order of names is total, antisymmetric and transitive.
pub proof fn text_le_total_order()
    ensures
        forall|a: Seq<char>| #[trigger] text_le(a, a),
        forall|a: Seq<char>, b: Seq<char>| #[trigger] text_le(a, b) || text_le(b, a),
        forall|a: Seq<char>, b: Seq<char>| #[trigger] text_le(
            a,
            b,
        ) && #[trigger] text_le(b, a) ==> a == b,
        forall|a: Seq<char>, b: Seq<char>, c: Seq<char>| #[trigger]
            text_le(a, b) && #[trigger] text_le(b, c) ==> text_le(a, c),
{
    assert forall|a: Seq<char>| #[trigger] text_le(a, a) by {
        text_le_total(a, a);
    }
    assert forall|a: Seq<char>, b: Seq<char>| #[trigger] text_le(a, b) || text_le(b, a) by {
        text_le_total(a, b);
    }
    assert forall|a: Seq<char>, b: Seq<char>| #[trigger]
        text_le(a, b) && #[trigger] text_le(b, a) implies a == b by {
        text_le_antisymmetric(a, b);
    }
    assert forall|a: Seq<char>, b: Seq<char>, c: Seq<char>| #[trigger]
        text_le(a, b) && #[trigger] text_le(b, c) implies text_le(a, c) by {
        text_le_transitive(a, b, c);
    }
}

proof fn text_le_total(a: Seq<char>, b: Seq<char>)
    ensures
        text_le(a, b) || text_le(b, a),
    decreases a.len(),
{
    if a.len() > 0 && b.len() > 0 && a[0] == b[0] {
        text_le_total(a.drop_first(), b.drop_first());
    }
}

proof fn text_le_antisymmetric(a: Seq<char>, b: Seq<char>)
    requires
        text_le(a, b),
        text_le(b, a),
    ensures
        a == b,
    decreases a.len(),
{
    if a.len() > 0 && b.len() > 0 {
        text_le_antisymmetric(a.drop_first(), b.drop_first());
        assert(a =~= seq![a[0]] + a.drop_first());
        assert(b =~= seq![b[0]] + b.drop_first());
    } else {
        assert(a =~= b);
    }
}

proof fn text_le_transitive(a: Seq<char>, b: Seq<char>, c: Seq<char>)
    requires
        text_le(a, b),
        text_le(b, c),
    ensures
        text_le(a, c),
    decreases a.len(),
{
    if a.len() > 0 && b.len() > 0 && c.len() > 0 && a[0] == b[0] && b[0] == c[0] {
        text_le_transitive(a.drop_first(), b.drop_first(), c.drop_first());
    }
}

/// The characters of `s`.
pub fn chars_of(s: &str) -> (out: Vec<char>)
    ensures
        out@ == s@,
{
    let mut out: Vec<char> = Vec::new();
    for c in it: s.chars()
        invariant
            it.seq() == s@,
            out@ == s@.take(it.index() as int),
    {
        out.push(c);
        assert(out@ =~= s@.take(it.index() + 1));
    }
    assert(s@.take(s@.len() as int) =~= s@);
    out
}

/// Whether two texts are the same.
pub fn text_eq(a: &str, b: &str) -> (r: bool)
    ensures
        r == (a@ == b@),
{
    a.to_owned() == b.to_owned()
}

/// Whether `a` comes before `b` or is `b`, in the order of names.
pub fn text_at_most(a: &str, b: &str) -> (r: bool)
    ensures
        r == text_le(a@, b@),
{
    let x = chars_of(a);
    let y = chars_of(b);
    let mut i: usize = 0;
    assert(x@.skip(0) =~= a@ && y@.skip(0) =~= b@);
    while i < x.len() && i < y.len() && x[i] == y[i]
        invariant
            i <= x.len(),
            i <= y.len(),
            text_le(a@, b@) == text_le(x@.skip(i as int), y@.skip(i as int)),
        decreases x.len() - i,
    {
        assert(x@.skip(i as int).drop_first() =~= x@.skip(i + 1));
        assert(y@.skip(i as int).drop_first() =~= y@.skip(i + 1));
        i = i + 1;
    }
    if i >= x.len() {
        true
    } else if i >= y.len() {
        false
    } else {
        x[i] < y[i]
    }
}

/// `prefix.name`.
pub fn dot_join(prefix: &str, name: &str) -> (r: String)
    ensures
        r@ == dotted(prefix@, name@),
{
    let mut r = prefix.to_owned();
    proof {
        reveal_strlit(".");
    }
    r.append(".");
    assert("."@ =~= seq!['.']);
    r.append(name);
    r
}

/// The last segment starts behind the last dot.
pub proof fn last_segment_at(s: Seq<char>, i: int)
    requires
        0 <= i <= s.len(),
        i == 0 || s[i - 1] == '.',
        forall|j: int| i <= j < s.len() ==> s[j] != '.',
    ensures
        last_segment(s) == s.skip(i),
    decreases s.len(),
{
    if i == s.len() {
        assert(s.skip(i) =~= Seq::empty());
    } else {
        assert(s.last() == s[s.len() - 1]);
        last_segment_at(s.drop_last(), i);
        assert(s.drop_last().skip(i).push(s.last()) =~= s.skip(i));
    }
}

/// Where the last segment of `chars` starts.
fn last_segment_start(chars: &Vec<char>) -> (i: usize)
    ensures
        i <= chars.len(),
        i == 0 || chars@[i - 1] == '.',
        i == 0 <==> !chars@.contains('.'),
        last_segment(chars@) == chars@.skip(i as int),
{
    let mut i: usize = chars.len();
    while i > 0 && chars[i - 1] != '.'
        invariant
            i <= chars.len(),
            forall|j: int| i <= j < chars.len() ==> chars@[j] != '.',
        decreases i,
    {
        i = i - 1;
    }
    proof {
        last_segment_at(chars@, i as int);
        if i > 0 {
            assert(chars@[i - 1] == '.');
        }
    }
    i
}

/// What follows the last dot of `s`; all of `s` where it has none.
pub fn after_last_dot<'a>(s: &'a str) -> (r: &'a str)
    ensures
        r@ == last_segment(s@),
{
    let chars = chars_of(s);
    let i = last_segment_start(&chars);
    assert(s@.skip(i as int) =~= s@.subrange(i as int, chars.len() as int));
    s.substring_char(i, chars.len())
}

/// Splits `s` at its last dot.
pub fn split_last_dot(s: &str) -> (r: Option<(String, String)>)
    ensures
        match r {
            Some((prefix, name)) => before_last_dot(s@) == Some(prefix@) && name@ == last_segment(s@),
            None => before_last_dot(s@) is None,
        },
{
    let chars = chars_of(s);
    let i = last_segment_start(&chars);
    if i == 0 {
        None
    } else {
        assert(s@.skip(i as int) =~= s@.subrange(i as int, chars.len() as int));
        assert(s@.take(i - 1) =~= s@.subrange(0, i - 1));
        Some((s.substring_char(0, i - 1).to_owned(), s.substring_char(i, chars.len()).to_owned()))
    }
}

/// A dotted name splits into what stands before its last dot and what follows
/// it, and the two put together are the name again.
pub proof fn dotted_splits(prefix: Seq<char>, name: Seq<char>)
    requires
        !name.contains('.'),
    ensures
        last_segment(dotted(prefix, name)) == name,
        before_last_dot(dotted(prefix, name)) == Some(prefix),
{
    let s = dotted(prefix, name);
    assert(s[prefix.len() as int] == '.');
    assert forall|j: int| prefix.len() + 1 <= j < s.len() implies s[j] != '.' by {
        assert(s[j] == name[j - prefix.len() - 1]);
    }
    last_segment_at(s, (prefix.len() + 1) as int);
    assert(s.skip((prefix.len() + 1) as int) =~= name);
    assert(s.take(prefix.len() as int) =~= prefix);
}

/// What stands before the last dot and what follows it make up the text.
pub proof fn split_makes_up(s: Seq<char>)
    requires
        s.contains('.'),
    ensures
        s == dotted(before_last_dot(s)->0, last_segment(s)),
        last_segment(s).len() < s.len(),
    decreases s.len(),
{
    if s.last() == '.' {
        assert(s =~= dotted(s.drop_last(), Seq::empty()));
        assert(s.take(s.len() - 1) =~= s.drop_last());
    } else {
        let init = s.drop_last();
        let k = choose|k: int| 0 <= k < s.len() && s[k] == '.';
        assert(init[k] == '.');
        split_makes_up(init);
        assert(s =~= init.push(s.last()));
        let at = init.len() - last_segment(init).len() - 1;
        assert(s.take(at) =~= init.take(at));
        assert(s =~= dotted(init.take(at), last_segment(init).push(s.last())));
    }
}

/// `s` with every dot made an underscore.
pub fn dots_to_underscores(s: &str) -> (r: String)
    ensures
        r@ == underscored(s@),
{
    let n = s.unicode_len();
    let mut r = String::new();
    let mut i: usize = 0;
    proof {
        reveal_strlit("_");
    }
    while i < n
        invariant
            n == s@.len(),
            i <= n,
            r@ == underscored(s@.take(i as int)),
        decreases n - i,
    {
        assert(s@.take(i + 1) =~= s@.take(i as int).push(s@[i as int]));
        if s.get_char(i) == '.' {
            r.append("_");
            proof {
                reveal_strlit("_");
            }
        } else {
            r.append(s.substring_char(i, i + 1));
        }
        assert(r@ =~= underscored(s@.take(i + 1)));
        i = i + 1;
    }
    assert(s@.take(n as int) =~= s@);
    r
}

fn digit_text(n: u64) -> (r: &'static str)
    requires
        n < 10,
    ensures
        r@ == seq![digit(n as nat)],
{
    proof {
        reveal_strlit("0");
        reveal_strlit("1");
        reveal_strlit("2");
        reveal_strlit("3");
        reveal_strlit("4");
        reveal_strlit("5");
        reveal_strlit("6");
        reveal_strlit("7");
        reveal_strlit("8");
        reveal_strlit("9");
    }
    let r = if n == 0 {
        "0"
    } else if n == 1 {
        "1"
    } else if n == 2 {
        "2"
    } else if n == 3 {
        "3"
    } else if n == 4 {
        "4"
    } else if n == 5 {
        "5"
    } else if n == 6 {
        "6"
    } else if n == 7 {
        "7"
    } else if n == 8 {
        "8"
    } else {
        "9"
    };
    assert(r@ =~= seq![digit(n as nat)]);
    r
}

/// The decimal digits of `n`.
pub fn number_text(n: u64) -> (r: String)
    ensures
        r@ == decimal(n as nat),
    decreases n,
{
    if n < 10 {
        digit_text(n).to_owned()
    } else {
        let mut r = number_text(n / 10);
        r.append(digit_text(n % 10));
        assert(r@ =~= decimal(n as nat));
        r
    }
}

/// Whether a text is how some number is written.
pub open spec fn is_decimal(s: Seq<char>) -> bool {
    exists|n: nat| s == #[trigger] decimal(n)
}

spec fn is_digit(c: char) -> bool {
    '0' <= c <= '9'
}

/// Digits, the first of which is a zero only where it stands alone.
spec fn has_number_form(s: Seq<char>) -> bool {
    &&& s.len() > 0
    &&& forall|i: int| 0 <= i < s.len() ==> is_digit(#[trigger] s[i])
    &&& s.len() == 1 || s[0] != '0'
}

proof fn decimal_has_number_form(n: nat)
    ensures
        has_number_form(decimal(n)),
        n > 0 ==> decimal(n)[0] != '0',
    decreases n,
{
    if n >= 10 {
        decimal_has_number_form(n / 10);
    }
}

proof fn number_form_is_decimal(s: Seq<char>) -> (n: nat)
    requires
        has_number_form(s),
    ensures
        s == decimal(n),
    decreases s.len(),
{
    let d = (s.last() as nat - '0' as nat) as nat;
    assert(is_digit(s[s.len() - 1]));
    assert(d < 10 && digit(d) == s.last());
    if s.len() == 1 {
        assert(s =~= decimal(d));
        d
    } else {
        let init = s.drop_last();
        assert(init[0] == s[0]);
        assert forall|i: int| 0 <= i < init.len() implies is_digit(#[trigger] init[i]) by {
            assert(init[i] == s[i]);
        }
        let m = number_form_is_decimal(init);
        if m == 0 {
            assert(init[0] == '0');
        }
        let n = (m * 10 + d) as nat;
        assert(n / 10 == m && n % 10 == d);
        assert(s =~= init.push(s.last()));
        n
    }
}

/// Whether a text is how some number is written.
pub fn is_number(s: &str) -> (r: bool)
    ensures
        r == is_decimal(s@),
{
    let chars = chars_of(s);
    let mut good = chars.len() == 1 || (chars.len() > 1 && chars[0] != '0');
    let mut i: usize = 0;
    while i < chars.len()
        invariant
            i <= chars.len(),
            good == (chars.len() > 0 && (chars.len() == 1 || chars@[0] != '0') && forall|j: int|
                0 <= j < i ==> is_digit(#[trigger] chars@[j])),
        decreases chars.len() - i,
    {
        assert(is_digit(chars@[i as int]) == ('0' <= chars@[i as int] <= '9'));
        good = good && '0' <= chars[i] && chars[i] <= '9';
        i = i + 1;
    }
    proof {
        if good {
            number_form_is_decimal(s@);
        } else if is_decimal(s@) {
            let n = choose|n: nat| s@ == #[trigger] decimal(n);
            decimal_has_number_form(n);
        }
    }
    good
}

/// No number is written with a dot.
pub proof fn decimal_has_no_dot(n: nat)
    ensures
        !decimal(n).contains('.'),
{
    decimal_has_number_form(n);
    if decimal(n).contains('.') {
        let k = choose|k: int| 0 <= k < decimal(n).len() && decimal(n)[k] == '.';
        assert(is_digit(decimal(n)[k]));
    }
}

/// The parts with `sep` between each two of them.
pub fn join_text(parts: &Vec<String>, sep: &str) -> (r: String)
    ensures
        r@ == joined(parts.deep_view(), sep@),
{
    if parts.len() == 0 {
        return String::new();
    }
    let mut r = parts[0].clone();
    let mut i: usize = 1;
    assert(parts.deep_view().take(1) =~= seq![parts@[0]@]);
    while i < parts.len()
        invariant
            1 <= i <= parts.len(),
            r@ == joined(parts.deep_view().take(i as int), sep@),
        decreases parts.len() - i,
    {
        proof {
            let next = parts.deep_view().take(i + 1);
            assert(next.drop_last() =~= parts.deep_view().take(i as int));
            assert(next.last() == parts@[i as int]@);
        }
        r.append(sep);
        r.append(parts[i].as_str());
        i = i + 1;
    }
    assert(parts.deep_view().take(i as int) =~= parts.deep_view());
    r
}

/// Text put after text.
pub fn concat(a: &str, b: &str) -> (r: String)
    ensures
        r@ == a@ + b@,
{
    let mut r = a.to_owned();
    r.append(b);
    r
}

/// Three texts, one behind the other.
pub fn concat3(a: &str, b: &str, c: &str) -> (r: String)
    ensures
        r@ == a@ + b@ + c@,
{
    let ab = concat(a, b);
    concat(ab.as_str(), c)
}

/// Four texts, one behind the other.
pub fn concat4(a: &str, b: &str, c: &str, d: &str) -> (r: String)
    ensures
        r@ == a@ + b@ + c@ + d@,
{
    let abc = concat3(a, b, c);
    concat(abc.as_str(), d)
}

/// Five texts, one behind the other.
pub fn concat5(a: &str, b: &str, c: &str, d: &str, e: &str) -> (r: String)
    ensures
        r@ == a@ + b@ + c@ + d@ + e@,
{
    let abc = concat3(a, b, c);
    concat3(abc.as_str(), d, e)
}

/// Whether a text begins with another.
pub open spec fn begins_with(s: Seq<char>, prefix: Seq<char>) -> bool {
    s.len() >= prefix.len() && s.take(prefix.len() as int) == prefix
}

/// Whether a text begins with another.
pub fn starts_with(s: &str, prefix: &str) -> (r: bool)
    ensures
        r == begins_with(s@, prefix@),
{
    let a = chars_of(s);
    let b = chars_of(prefix);
    if a.len() < b.len() {
        return false;
    }
    let mut i: usize = 0;
    while i < b.len()
        invariant
            i <= b.len() <= a.len(),
            a@ == s@,
            b@ == prefix@,
            forall|j: int| 0 <= j < i ==> a@[j] == b@[j],
        decreases b.len() - i,
    {
        if a[i] != b[i] {
            assert(s@.take(b.len() as int)[i as int] != prefix@[i as int]);
            return false;
        }
        i = i + 1;
    }
    assert(s@.take(b.len() as int) =~= prefix@);
    true
}

/// Whether a character occurs in a text.
pub fn has_char(s: &str, c: char) -> (r: bool)
    ensures
        r == s@.contains(c),
{
    let chars = chars_of(s);
    let mut i: usize = 0;
    while i < chars.len()
        invariant
            i <= chars.len(),
            chars@ == s@,
            forall|j: int| 0 <= j < i ==> chars@[j] != c,
        decreases chars.len() - i,
    {
        if chars[i] == c {
            assert(s@[i as int] == c);
            return true;
        }
        i = i + 1;
    }
    false
}

} // verus!
