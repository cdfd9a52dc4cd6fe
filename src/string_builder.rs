use vstd::prelude::*;

verus! {

/// Relies on `str::chars`, collected into a `Vec`: the characters of `s` in order.
#[verifier::external_body]
pub(crate) fn chars_of(s: &str) -> (r: Vec<char>)
    ensures
        r@ == s@,
{
    s.chars().collect()
}

/// Relies on `String: FromIterator<char>`: the string made of `v`'s characters in order.
#[verifier::external_body]
fn string_of_chars(v: &[char]) -> (r: String)
    ensures
        r@ == v@,
{
    v.iter().collect()
}

/// Appends the characters of `v` to `builder`.
pub fn push(builder: &mut Vec<char>, v: &str)
    ensures
        final(builder)@ == old(builder)@ + v@,
{
    let mut chars = chars_of(v);
    builder.append(&mut chars);
}

/// Appends the characters of `v` and a line break to `builder`.
pub fn push_line(builder: &mut Vec<char>, v: &str)
    ensures
        final(builder)@ == old(builder)@ + v@ + seq!['\n'],
{
    push(builder, v);
    builder.push('\n');
}

/// The string holding the characters of `v`.
pub fn collapse(v: Vec<char>) -> (r: String)
    ensures
        r@ == v@,
{
    string_of_chars(v.as_slice())
}

/// The texts of the items of `s`, one after the other.
pub open spec fn concat_map<A>(s: Seq<A>, f: spec_fn(A) -> Seq<char>) -> Seq<char>
    decreases s.len(),
{
    if s.len() == 0 {
        Seq::empty()
    } else {
        concat_map(s.drop_last(), f) + f(s.last())
    }
}

/// The strings of `items`, one after the other.
pub fn bulk(items: &Vec<String>) -> (r: String)
    ensures
        r@ == concat_map(items@, |s: String| s@),
{
    let ghost f = |s: String| s@;
    let mut r = String::new();
    let mut k: usize = 0;
    while k < items.len()
        invariant
            k <= items.len(),
            f == (|s: String| s@),
            r@ == concat_map(items@.subrange(0, k as int), f),
        decreases items.len() - k,
    {
        r.append(items[k].as_str());
        assert(items@.subrange(0, k + 1).drop_last() =~= items@.subrange(0, k as int));
        k += 1;
    }
    assert(items@.subrange(0, k as int) =~= items@);
    r
}

/// Applies `operation` to each item and joins the results in order.
pub fn reduce_additive<T, F: Fn(&T) -> String>(items: &Vec<T>, operation: F) -> (r: String)
    requires
        forall|i: int| 0 <= i < items.len() ==> operation.requires((&items@[i],)),
    ensures
        exists|parts: Seq<String>|
            parts.len() == items.len() && (forall|i: int|
                0 <= i < items.len() ==> operation.ensures((&items@[i],), #[trigger] parts[i])) && r@
                == concat_map(parts, |s: String| s@),
{
    let ghost f = |s: String| s@;
    let ghost mut parts: Seq<String> = Seq::empty();
    let mut r = String::new();
    let mut k: usize = 0;
    while k < items.len()
        invariant
            k <= items.len(),
            f == (|s: String| s@),
            forall|i: int| 0 <= i < items.len() ==> operation.requires((&items@[i],)),
            parts.len() == k,
            forall|i: int| 0 <= i < k ==> operation.ensures((&items@[i],), #[trigger] parts[i]),
            r@ == concat_map(parts, f),
        decreases items.len() - k,
    {
        let piece = operation(&items[k]);
        r.append(piece.as_str());
        proof {
            let old_parts = parts;
            parts = parts.push(piece);
            assert(parts.drop_last() =~= old_parts);
        }
        k += 1;
    }
    r
}

/// A text built up piece by piece, as characters.
pub struct Builder(pub Vec<char>);

impl Builder {
    pub fn new() -> (r: Builder)
        ensures
            r.0@ == Seq::<char>::empty(),
    {
        Builder(Vec::new())
    }

    pub fn push(&mut self, t: &str)
        ensures
            final(self).0@ == old(self).0@ + t@,
    {
        push(&mut self.0, t);
    }

    pub fn push_line(&mut self, t: &str)
        ensures
            final(self).0@ == old(self).0@ + t@ + seq!['\n'],
    {
        push_line(&mut self.0, t);
    }

    pub fn collapse(self) -> (r: String)
        ensures
            r@ == self.0@,
    {
        collapse(self.0)
    }
}

// ---------------------------------------------------------------------------
// Numbers as decimal text.
// ---------------------------------------------------------------------------

pub open spec fn digit_char(d: int) -> char {
    ('0' as int + d) as char
}

/// The decimal digits of `n`.
pub open spec fn nat_text(n: nat) -> Seq<char>
    decreases n,
{
    if n < 10 {
        seq![digit_char(n as int)]
    } else {
        nat_text(n / 10).push(digit_char((n % 10) as int))
    }
}

/// The decimal text of `i`, with a minus sign when it is negative.
pub open spec fn int_text(i: int) -> Seq<char> {
    if i < 0 {
        seq!['-'] + nat_text((-i) as nat)
    } else {
        nat_text(i as nat)
    }
}

fn digit_str(d: u64) -> (r: &'static str)
    requires
        d < 10,
    ensures
        r@ == seq![digit_char(d as int)],
{
    proof {
        reveal_strlit("0");
        reveal_strlit("1");
        reveal_strlit("2");
        reveal_strlit("3");
        reveal_strlit("4");
        reveal_strlit("5");
        reveal_strlit("6");
        reveal_strlit("7");
        reveal_strlit("8");
        reveal_strlit("9");
    }
    let r = match d {
        0 => "0",
        1 => "1",
        2 => "2",
        3 => "3",
        4 => "4",
        5 => "5",
        6 => "6",
        7 => "7",
        8 => "8",
        _ => "9",
    };
    assert(r@ =~= seq![digit_char(d as int)]);
    r
}

/// Appends the decimal digits of `n` to `s`.
pub(crate) fn push_nat(s: &mut String, n: u64)
    ensures
        final(s)@ == old(s)@ + nat_text(n as nat),
    decreases n,
{
    if n >= 10 {
        push_nat(s, n / 10);
    }
    s.append(digit_str(n % 10));
    proof {
        if n >= 10 {
            assert(nat_text(n as nat) == nat_text((n / 10) as nat).push(digit_char((n % 10) as int)));
        }
    }
    assert(final(s)@ =~= old(s)@ + nat_text(n as nat));
}

/// Appends the decimal text of `v` to `s`.
pub(crate) fn push_int(s: &mut String, v: i32)
    ensures
        final(s)@ == old(s)@ + int_text(v as int),
{
    if v < 0 {
        proof {
            reveal_strlit("-");
        }
        s.append("-");
        let m = (-(v as i64)) as u64;
        push_nat(s, m);
        assert(final(s)@ =~= old(s)@ + int_text(v as int));
    } else {
        push_nat(s, v as u64);
    }
}

} // verus!
