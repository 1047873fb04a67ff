use vstd::prelude::*;

verus! {

/// The decimal digit character for `d` (`d < 10`).
pub open spec fn digit_char(d: int) -> char {
    if d == 0 {
        '0'
    } else if d == 1 {
        '1'
    } else if d == 2 {
        '2'
    } else if d == 3 {
        '3'
    } else if d == 4 {
        '4'
    } else if d == 5 {
        '5'
    } else if d == 6 {
        '6'
    } else if d == 7 {
        '7'
    } else if d == 8 {
        '8'
    } else {
        '9'
    }
}

pub open spec fn is_digit(c: char) -> bool {
    '0' <= c && c <= '9'
}

/// The value of a digit character.
pub open spec fn char_digit(c: char) -> nat {
    (c as int - '0' as int) as nat
}

/// The decimal text of `n`, without leading zeros.
pub open spec fn decimal(n: nat) -> Seq<char>
    decreases n,
{
    if n < 10 {
        seq![digit_char(n as int)]
    } else {
        decimal(n / 10).push(digit_char((n % 10) as int))
    }
}

/// The number that a run of digit characters spells.
pub open spec fn digits_value(d: Seq<char>) -> nat
    decreases d.len(),
{
    if d.len() == 0 {
        0
    } else {
        digits_value(d.drop_last()) * 10 + char_digit(d.last())
    }
}

/// The label of virtual node `vnode` of shard `shard`: `<shard>&VN<vnode>`.
pub open spec fn label_text(shard: nat, vnode: nat) -> Seq<char> {
    decimal(shard) + seq!['&', 'V', 'N'] + decimal(vnode)
}

/// The index of the first `&` of `l`, or its length when it has none.
pub open spec fn amp_index(l: Seq<char>) -> int
    decreases l.len(),
{
    if l.len() == 0 {
        0
    } else if l[0] == '&' {
        0
    } else {
        1 + amp_index(l.drop_first())
    }
}

/// The shard index that a label names: the text before its first `&`, read
/// as a decimal number. `None` when that text is empty, holds a character
/// other than a digit, or names a number above `u32::MAX`.
pub open spec fn label_shard(l: Seq<char>) -> Option<u32> {
    let p = l.subrange(0, amp_index(l));
    if p.len() > 0 && (forall|k: int| 0 <= k < p.len() ==> is_digit(#[trigger] p[k]))
        && digits_value(p) <= u32::MAX {
        Some(digits_value(p) as u32)
    } else {
        None
    }
}

proof fn lemma_amp_index(l: Seq<char>, i: int)
    requires
        0 <= i <= l.len(),
        forall|k: int| 0 <= k < i ==> #[trigger] l[k] != '&',
    ensures
        amp_index(l) >= i,
        amp_index(l) <= l.len(),
        i < l.len() && l[i] == '&' ==> amp_index(l) == i,
    decreases l.len(),
{
    if l.len() > 0 {
        let tail = l.drop_first();
        if i > 0 {
            assert forall|k: int| 0 <= k < i - 1 implies #[trigger] tail[k] != '&' by {
                assert(tail[k] == l[k + 1]);
            }
            lemma_amp_index(tail, i - 1);
            if i < l.len() {
                assert(tail[i - 1] == l[i]);
            }
        } else if l[0] != '&' {
            lemma_amp_index(tail, 0);
        }
    }
}

proof fn lemma_digits_prefix(d: Seq<char>, j: int)
    requires
        0 <= j <= d.len(),
    ensures
        digits_value(d.subrange(0, j)) <= digits_value(d),
    decreases d.len(),
{
    if j < d.len() {
        let init = d.drop_last();
        lemma_digits_prefix(init, j);
        assert(init.subrange(0, j) =~= d.subrange(0, j));
    } else {
        assert(d.subrange(0, j) =~= d);
    }
}

proof fn lemma_char_digit(d: int)
    requires
        0 <= d < 10,
    ensures
        is_digit(digit_char(d)),
        char_digit(digit_char(d)) == d,
{
}

proof fn lemma_decimal(n: nat)
    ensures
        decimal(n).len() > 0,
        forall|k: int| 0 <= k < decimal(n).len() ==> is_digit(#[trigger] decimal(n)[k]),
        digits_value(decimal(n)) == n,
    decreases n,
{
    lemma_char_digit((n % 10) as int);
    if n >= 10 {
        lemma_decimal(n / 10);
        let d = decimal(n);
        assert(d.drop_last() =~= decimal(n / 10));
        assert(d.last() == digit_char((n % 10) as int));
        assert(n == (n / 10) * 10 + n % 10);
        assert(digits_value(d) == digits_value(decimal(n / 10)) * 10 + char_digit(d.last()));
    } else {
        assert(n % 10 == n);
        let d = decimal(n);
        assert(d.drop_last() =~= Seq::<char>::empty());
        assert(d.last() == digit_char(n as int));
        assert(digits_value(d.drop_last()) == 0);
        assert(digits_value(d) == char_digit(d.last()));
    }
}

/// A virtual node's label names its shard.
pub proof fn lemma_label_shard(shard: u32, vnode: nat)
    ensures
        label_shard(label_text(shard as nat, vnode)) == Some(shard),
{
    let l = label_text(shard as nat, vnode);
    let d = decimal(shard as nat);
    lemma_decimal(shard as nat);
    assert forall|k: int| 0 <= k < d.len() implies #[trigger] l[k] != '&' by {
        assert(l[k] == d[k]);
        assert(is_digit(d[k]));
    }
    assert(l[d.len() as int] == '&');
    lemma_amp_index(l, d.len() as int);
    assert(l.subrange(0, d.len() as int) =~= d);
}

// The one-character text of digit `d`.
fn digit_str(d: u32) -> (r: &'static str)
    requires
        d < 10,
    ensures
        r@ == seq![digit_char(d as int)],
{
    proof {
        reveal_strlit("0");
        reveal_strlit("1");
        reveal_strlit("2");
        reveal_strlit("3");
        reveal_strlit("4");
        reveal_strlit("5");
        reveal_strlit("6");
        reveal_strlit("7");
        reveal_strlit("8");
        reveal_strlit("9");
    }
    let r = match d {
        0 => "0",
        1 => "1",
        2 => "2",
        3 => "3",
        4 => "4",
        5 => "5",
        6 => "6",
        7 => "7",
        8 => "8",
        _ => "9",
    };
    assert(r@ =~= seq![digit_char(d as int)]);
    r
}

// Appends the decimal text of `n` to `s`.
fn push_decimal(s: &mut String, n: u32)
    ensures
        final(s)@ == old(s)@ + decimal(n as nat),
    decreases n,
{
    let ghost start = s@;
    if n >= 10 {
        push_decimal(s, n / 10);
    }
    s.append(digit_str(n % 10));
    proof {
        if n >= 10 {
            assert(start + decimal(n as nat) =~= start + decimal((n / 10) as nat) + seq![digit_char((n % 10) as int)]);
        } else {
            assert(start + decimal(n as nat) =~= start + seq![digit_char((n % 10) as int)]);
        }
    }
}

/// The label of virtual node `vnode` of shard `shard`.
pub fn node_label(shard: u32, vnode: u32) -> (r: String)
    ensures
        r@ == label_text(shard as nat, vnode as nat),
{
    let mut s = String::new();
    push_decimal(&mut s, shard);
    proof {
        reveal_strlit("&VN");
    }
    s.append("&VN");
    push_decimal(&mut s, vnode);
    assert(s@ =~= label_text(shard as nat, vnode as nat));
    s
}

/// Reads the shard index that `label` names (see `label_shard`).
pub fn parse_shard(label: &str) -> (r: Option<u32>)
    ensures
        r == label_shard(label@),
{
    let ghost l = label@;
    let n: usize = label.unicode_len();
    let mut i: usize = 0;
    let mut acc: u64 = 0;
    loop
        invariant
            l == label@,
            n == l.len(),
            i <= n,
            forall|k: int| 0 <= k < i ==> #[trigger] l[k] != '&' && is_digit(l[k]),
            acc == digits_value(l.subrange(0, i as int)),
            acc <= u32::MAX,
        ensures
            i == n || l[i as int] == '&',
        decreases n - i,
    {
        if i == n {
            break;
        }
        let c: char = label.get_char(i);
        if c == '&' {
            break;
        }
        if !('0' <= c && c <= '9') {
            proof {
                lemma_amp_index(l, i as int + 1);
                let p = l.subrange(0, amp_index(l));
                assert(p[i as int] == c);
            }
            return None;
        }
        assert(l.subrange(0, i + 1).drop_last() =~= l.subrange(0, i as int));
        acc = acc * 10 + (c as u64 - 48);
        i = i + 1;
        if acc > 4294967295u64 {
            proof {
                lemma_amp_index(l, i as int);
                let p = l.subrange(0, amp_index(l));
                lemma_digits_prefix(p, i as int);
                assert(p.subrange(0, i as int) =~= l.subrange(0, i as int));
            }
            return None;
        }
    }
    proof {
        lemma_amp_index(l, i as int);
        assert(l.subrange(0, amp_index(l)) =~= l.subrange(0, i as int));
    }
    if i == 0 {
        return None;
    }
    Some(acc as u32)
}

} // verus!
