//! Character-level helpers shared by the version model and the source clients:
//! decimal rendering and reading, and dot-separated components.
use vstd::prelude::*;
use vstd::string::*;

verus! {

pub open spec fn is_digit(c: char) -> bool {
    '0' <= c && c <= '9'
}

pub open spec fn all_digits(s: Seq<char>) -> bool {
    forall|i: int| 0 <= i < s.len() ==> is_digit(#[trigger] s[i])
}

pub open spec fn digit_value(c: char) -> nat {
    (c as u32 - '0' as u32) as nat
}

/// The number written by a string of decimal digits (most significant first).
pub open spec fn decimal_value(s: Seq<char>) -> nat
    decreases s.len(),
{
    if s.len() == 0 {
        0
    } else {
        decimal_value(s.drop_last()) * 10 + digit_value(s.last())
    }
}

pub open spec fn digit_char(d: nat) -> char {
    if d == 0 {
        '0'
    } else if d == 1 {
        '1'
    } else if d == 2 {
        '2'
    } else if d == 3 {
        '3'
    } else if d == 4 {
        '4'
    } else if d == 5 {
        '5'
    } else if d == 6 {
        '6'
    } else if d == 7 {
        '7'
    } else if d == 8 {
        '8'
    } else {
        '9'
    }
}

/// The canonical decimal text of `n`: no sign, no leading zeros.
pub open spec fn decimal_text(n: nat) -> Seq<char>
    decreases n,
{
    if n < 10 {
        seq![digit_char(n)]
    } else {
        decimal_text(n / 10).push(digit_char(n % 10))
    }
}

/// What `str::parse` reads from `s` as an unsigned integer, before the bound of
/// the target type: an optional `+`, then one or more decimal digits.
pub open spec fn unsigned_value(s: Seq<char>) -> Option<nat> {
    let d = sign_stripped(s);
    if d.len() > 0 && all_digits(d) {
        Some(decimal_value(d))
    } else {
        None
    }
}

/// `s` without one leading `+`.
pub open spec fn sign_stripped(s: Seq<char>) -> Seq<char> {
    if s.len() > 0 && s[0] == '+' {
        s.drop_first()
    } else {
        s
    }
}

/// `unsigned_value(s)`, kept only where it does not exceed `bound`.
pub open spec fn bounded_value(s: Seq<char>, bound: nat) -> Option<nat> {
    match unsigned_value(s) {
        Some(v) => if v <= bound {
            Some(v)
        } else {
            None
        },
        None => None,
    }
}

/// Splits `s` at every `.`; there is always at least one component.
pub open spec fn split_dots(s: Seq<char>) -> Seq<Seq<char>>
    decreases s.len(),
{
    if s.len() == 0 {
        seq![Seq::<char>::empty()]
    } else {
        let init = split_dots(s.drop_last());
        if s.last() == '.' {
            init.push(Seq::<char>::empty())
        } else {
            init.update(init.len() - 1, init.last().push(s.last()))
        }
    }
}

/// Joins components with `.` between them.
pub open spec fn join_dots(parts: Seq<Seq<char>>) -> Seq<char>
    decreases parts.len(),
{
    if parts.len() <= 1 {
        if parts.len() == 0 {
            Seq::<char>::empty()
        } else {
            parts[0]
        }
    } else {
        join_dots(parts.drop_last()).push('.') + parts.last()
    }
}

/// The texts of a list of strings.
pub open spec fn strings_view(v: Seq<String>) -> Seq<Seq<char>> {
    v.map_values(|s: String| s@)
}

pub open spec fn has_no_dot(s: Seq<char>) -> bool {
    forall|i: int| 0 <= i < s.len() ==> #[trigger] s[i] != '.'
}

pub proof fn lemma_split_dots_nonempty(s: Seq<char>)
    ensures
        split_dots(s).len() >= 1,
    decreases s.len(),
{
    if s.len() > 0 {
        lemma_split_dots_nonempty(s.drop_last());
    }
}

pub proof fn lemma_split_components_have_no_dot(s: Seq<char>)
    ensures
        forall|k: int| 0 <= k < split_dots(s).len() ==> has_no_dot(#[trigger] split_dots(s)[k]),
    decreases s.len(),
{
    if s.len() > 0 {
        lemma_split_dots_nonempty(s.drop_last());
        lemma_split_components_have_no_dot(s.drop_last());
    }
}

/// Joining the components gives back the string.
pub proof fn lemma_join_split(s: Seq<char>)
    ensures
        join_dots(split_dots(s)) == s,
    decreases s.len(),
{
    if s.len() > 0 {
        let init = split_dots(s.drop_last());
        lemma_split_dots_nonempty(s.drop_last());
        lemma_join_split(s.drop_last());
        if s.last() == '.' {
            assert(init.push(Seq::<char>::empty()).drop_last() =~= init);
            assert(s =~= join_dots(init).push('.') + Seq::<char>::empty());
        } else {
            let upd = init.update(init.len() - 1, init.last().push(s.last()));
            if init.len() == 1 {
                assert(s =~= init[0].push(s.last()));
            } else {
                assert(upd.drop_last() =~= init.drop_last());
                assert(s =~= s.drop_last().push(s.last()));
                assert(join_dots(init) == join_dots(init.drop_last()).push('.') + init.last());
                assert(join_dots(upd) == join_dots(upd.drop_last()).push('.') + upd.last());
                assert(s =~= join_dots(init.drop_last()).push('.') + init.last().push(s.last()));
            }
        }
    }
}

/// Distinct strings have distinct components.
pub proof fn lemma_split_injective(a: Seq<char>, b: Seq<char>)
    requires
        split_dots(a) == split_dots(b),
    ensures
        a == b,
{
    lemma_join_split(a);
    lemma_join_split(b);
}

/// Splitting a join of dot-free components gives the components back.
pub proof fn lemma_split_join(parts: Seq<Seq<char>>)
    requires
        parts.len() >= 1,
        forall|k: int| 0 <= k < parts.len() ==> has_no_dot(#[trigger] parts[k]),
    ensures
        split_dots(join_dots(parts)) == parts,
    decreases parts.len(), parts.last().len(),
{
    if parts.len() == 1 {
        lemma_split_no_dot(parts[0]);
        assert(split_dots(join_dots(parts)) =~= parts);
    } else {
        let init = parts.drop_last();
        assert(has_no_dot(parts.last()));
        assert forall|k: int| 0 <= k < init.len() implies has_no_dot(#[trigger] init[k]) by {
            assert(init[k] == parts[k]);
        }
        lemma_split_join(init);
        lemma_split_append_no_dot(join_dots(init), parts.last());
        assert(split_dots(join_dots(parts)) =~= parts);
    }
}

proof fn lemma_split_no_dot(s: Seq<char>)
    requires
        has_no_dot(s),
    ensures
        split_dots(s) == seq![s],
    decreases s.len(),
{
    if s.len() > 0 {
        assert(has_no_dot(s.drop_last())) by {
            assert forall|i: int| 0 <= i < s.len() - 1 implies s.drop_last()[i] != '.' by {
                assert(s.drop_last()[i] == s[i]);
            }
        }
        assert(s.last() != '.') by {
            assert(s[s.len() - 1] != '.');
        }
        lemma_split_no_dot(s.drop_last());
        assert(s.drop_last().push(s.last()) =~= s);
        assert(split_dots(s) =~= seq![s]);
    } else {
        assert(s =~= Seq::<char>::empty());
    }
}

/// `split_dots(p + "." + t)` for a dot-free `t` is `split_dots(p)` followed by `t`.
proof fn lemma_split_append_no_dot(p: Seq<char>, t: Seq<char>)
    requires
        has_no_dot(t),
    ensures
        split_dots(p.push('.') + t) == split_dots(p).push(t),
    decreases t.len(),
{
    let s = p.push('.') + t;
    if t.len() == 0 {
        assert(s =~= p.push('.'));
        assert(s.drop_last() =~= p);
        assert(s.last() == '.');
        assert(t =~= Seq::<char>::empty());
    } else {
        let t0 = t.drop_last();
        assert(has_no_dot(t0)) by {
            assert forall|i: int| 0 <= i < t0.len() implies t0[i] != '.' by {
                assert(t0[i] == t[i]);
            }
        }
        lemma_split_append_no_dot(p, t0);
        assert(s.drop_last() =~= p.push('.') + t0);
        assert(s.last() == t.last());
        assert(t.last() != '.') by {
            assert(t[t.len() - 1] != '.');
        }
        assert(t0.push(t.last()) =~= t);
        lemma_split_dots_nonempty(p);
        let init = split_dots(s.drop_last());
        assert(init == split_dots(p).push(t0));
        assert(split_dots(s) == init.update(init.len() - 1, init.last().push(s.last())));
        assert(split_dots(s) =~= split_dots(p).push(t));
    }
}

/// Relies on `FromIterator<&char> for String`: the characters are collected in order.
#[verifier::external_body]
pub(crate) fn string_of(chars: &Vec<char>) -> (r: String)
    ensures
        r@ == chars@,
{
    chars.iter().collect()
}

pub fn chars_of(s: &str) -> (r: Vec<char>)
    ensures
        r@ == s@,
{
    let n = s.unicode_len();
    let mut r: Vec<char> = Vec::new();
    let mut i: usize = 0;
    while i < n
        invariant
            n == s@.len(),
            i <= n,
            r@ == s@.subrange(0, i as int),
        decreases n - i,
    {
        let c = s.get_char(i);
        r.push(c);
        i = i + 1;
        assert(r@ =~= s@.subrange(0, i as int));
    }
    assert(r@ =~= s@);
    r
}

/// Appends the characters of `s` to `out`.
pub fn push_str(out: &mut Vec<char>, s: &str)
    ensures
        final(out)@ == old(out)@ + s@,
{
    let mut cs = chars_of(s);
    out.append(&mut cs);
}

fn digit_char_exec(d: u64) -> (c: char)
    requires
        d < 10,
    ensures
        c == digit_char(d as nat),
{
    if d == 0 {
        '0'
    } else if d == 1 {
        '1'
    } else if d == 2 {
        '2'
    } else if d == 3 {
        '3'
    } else if d == 4 {
        '4'
    } else if d == 5 {
        '5'
    } else if d == 6 {
        '6'
    } else if d == 7 {
        '7'
    } else if d == 8 {
        '8'
    } else {
        '9'
    }
}

/// Appends the decimal text of `n` to `out`.
pub fn push_decimal(out: &mut Vec<char>, n: u64)
    ensures
        final(out)@ == old(out)@ + decimal_text(n as nat),
    decreases n,
{
    if n >= 10 {
        push_decimal(out, n / 10);
    }
    let c = digit_char_exec(n % 10);
    out.push(c);
    proof {
        if n >= 10 {
            assert(old(out)@ + decimal_text(n as nat) =~= (old(out)@ + decimal_text(
                (n / 10) as nat,
            )).push(c));
        } else {
            assert(old(out)@ + decimal_text(n as nat) =~= old(out)@.push(c));
        }
    }
}

pub fn is_digit_exec(c: char) -> (r: bool)
    ensures
        r == is_digit(c),
{
    '0' <= c && c <= '9'
}

pub fn all_digits_exec(s: &Vec<char>) -> (r: bool)
    ensures
        r == all_digits(s@),
{
    let mut i: usize = 0;
    while i < s.len()
        invariant
            i <= s@.len(),
            forall|k: int| 0 <= k < i ==> is_digit(#[trigger] s@[k]),
        decreases s.len() - i,
    {
        if !is_digit_exec(s[i]) {
            return false;
        }
        i = i + 1;
    }
    true
}

proof fn lemma_decimal_step(s: Seq<char>, i: int)
    requires
        0 <= i < s.len(),
    ensures
        decimal_value(s.subrange(0, i + 1)) == decimal_value(s.subrange(0, i)) * 10
            + digit_value(s[i]),
{
    assert(s.subrange(0, i + 1).drop_last() =~= s.subrange(0, i));
}

/// Reads `s` as `str::parse` reads an unsigned integer type whose largest value
/// is `bound`.
pub fn parse_unsigned(s: &Vec<char>, bound: u64) -> (r: Option<u64>)
    ensures
        r matches Some(v) ==> bounded_value(s@, bound as nat) == Some(v as nat),
        r is None ==> bounded_value(s@, bound as nat) is None,
{
    let start: usize = if s.len() > 0 && s[0] == '+' {
        1
    } else {
        0
    };
    let ghost d = sign_stripped(s@);
    assert(d =~= s@.subrange(start as int, s@.len() as int));
    if start >= s.len() {
        assert(unsigned_value(s@) is None);
        return None;
    }
    let mut value: u64 = 0;
    let mut over = false;
    let mut i: usize = start;
    while i < s.len()
        invariant
            start <= i <= s@.len(),
            d == sign_stripped(s@),
            d =~= s@.subrange(start as int, s@.len() as int),
            forall|k: int| start <= k < i ==> is_digit(#[trigger] s@[k]),
            !over ==> value as nat == decimal_value(d.subrange(0, i - start)),
            !over ==> value <= bound,
            over ==> decimal_value(d.subrange(0, i - start)) > bound,
        decreases s.len() - i,
    {
        let c = s[i];
        if !is_digit_exec(c) {
            assert(d[i - start] == c);
            assert(!all_digits(d));
            assert(unsigned_value(s@) is None);
            return None;
        }
        proof {
            lemma_decimal_step(d, i - start);
            assert(d[i - start] == c);
        }
        let dv = (c as u32 - '0' as u32) as u64;
        assert(dv as nat == digit_value(c));
        if !over {
            if dv <= bound && value <= (bound - dv) / 10 {
                assert(value * 10 + dv <= bound) by (nonlinear_arith)
                    requires
                        value <= (bound - dv) / 10,
                        dv <= bound,
                ;
                value = value * 10 + dv;
            } else {
                assert(value * 10 + dv > bound) by (nonlinear_arith)
                    requires
                        !(dv <= bound && value <= (bound - dv) / 10),
                ;
                over = true;
            }
        } else {
            assert(decimal_value(d.subrange(0, i - start)) * 10 + dv > bound) by (nonlinear_arith)
                requires
                    decimal_value(d.subrange(0, i - start)) > bound,
            ;
        }
        i = i + 1;
    }
    assert(d.subrange(0, d.len() as int) =~= d);
    assert(all_digits(d)) by {
        assert forall|k: int| 0 <= k < d.len() implies is_digit(#[trigger] d[k]) by {
            assert(d[k] == s@[k + start]);
        }
    }
    assert(unsigned_value(s@) == Some(decimal_value(d)));
    if over {
        None
    } else {
        Some(value)
    }
}

/// Splits `s` at every `.`.
pub fn split_dots_exec(s: &Vec<char>) -> (r: Vec<Vec<char>>)
    ensures
        r@.len() == split_dots(s@).len(),
        forall|k: int| 0 <= k < r@.len() ==> (#[trigger] r@[k])@ == split_dots(s@)[k],
{
    let mut parts: Vec<Vec<char>> = Vec::new();
    let mut cur: Vec<char> = Vec::new();
    let mut i: usize = 0;
    while i < s.len()
        invariant
            i <= s@.len(),
            parts@.len() + 1 == split_dots(s@.subrange(0, i as int)).len(),
            forall|k: int|
                0 <= k < parts@.len() ==> (#[trigger] parts@[k])@ == split_dots(
                    s@.subrange(0, i as int),
                )[k],
            cur@ == split_dots(s@.subrange(0, i as int)).last(),
        decreases s.len() - i,
    {
        let c = s[i];
        proof {
            assert(s@.subrange(0, i + 1).drop_last() =~= s@.subrange(0, i as int));
            lemma_split_dots_nonempty(s@.subrange(0, i as int));
        }
        if c == '.' {
            parts.push(cur);
            cur = Vec::new();
        } else {
            cur.push(c);
        }
        i = i + 1;
    }
    assert(s@.subrange(0, s@.len() as int) =~= s@);
    proof {
        lemma_split_dots_nonempty(s@);
    }
    parts.push(cur);
    parts
}

} // verus!
