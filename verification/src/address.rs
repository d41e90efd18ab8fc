//! The textual forms of IP addresses that the standard library's address
//! parser accepts, and checks for them.
use vstd::prelude::*;
use vstd::string::*;

use crate::text::{join_spec, lemma_join_split, lemma_split_join, lemma_split_nonempty, lemma_split_without_sep, split_on, split_spec, views};

verus! {

pub open spec fn is_dec_digit(c: char) -> bool {
    '0' <= c && c <= '9'
}

pub open spec fn is_hex_digit(c: char) -> bool {
    ||| ('0' <= c && c <= '9')
    ||| ('a' <= c && c <= 'f')
    ||| ('A' <= c && c <= 'F')
}

/// The number that a run of decimal digits denotes.
pub open spec fn dec_value(s: Seq<char>) -> int
    decreases s.len(),
{
    if s.len() == 0 {
        0
    } else {
        dec_value(s.drop_last()) * 10 + (s.last() as int - '0' as int)
    }
}

/// One part of a dotted IPv4 address: one to three decimal digits, no
/// leading zero unless the part is a single `0`, and a value of at most 255.
pub open spec fn is_octet(s: Seq<char>) -> bool {
    &&& 1 <= s.len() <= 3
    &&& forall|i: int| 0 <= i < s.len() ==> is_dec_digit(#[trigger] s[i])
    &&& (s[0] == '0' ==> s.len() == 1)
    &&& dec_value(s) <= 255
}

/// Four octets separated by dots.
pub open spec fn is_ipv4_text(s: Seq<char>) -> bool {
    let parts = split_spec(s, '.');
    parts.len() == 4 && forall|i: int| 0 <= i < 4 ==> is_octet(#[trigger] parts[i])
}

/// One group of an IPv6 address: one to four hexadecimal digits.
pub open spec fn is_hex_group(s: Seq<char>) -> bool {
    &&& 1 <= s.len() <= 4
    &&& forall|i: int| 0 <= i < s.len() ==> is_hex_digit(#[trigger] s[i])
}

/// A run of IPv6 groups separated by single colons, where the last element
/// may be an embedded IPv4 address. Gives the number of 16-bit groups it
/// stands for (an embedded IPv4 address stands for two) and whether it ends
/// in an embedded IPv4 address; `None` when `s` is no such run. The empty
/// text is the empty run.
pub open spec fn group_run(s: Seq<char>) -> Option<(nat, bool)> {
    let parts = split_spec(s, ':');
    if s.len() == 0 {
        Some((0, false))
    } else if forall|i: int| 0 <= i < parts.len() ==> is_hex_group(#[trigger] parts[i]) {
        Some((parts.len(), false))
    } else if (forall|i: int| 0 <= i < parts.len() - 1 ==> is_hex_group(#[trigger] parts[i]))
        && is_ipv4_text(parts.last()) {
        Some((parts.len() + 1, true))
    } else {
        None
    }
}

/// The first position at or after `from` where `::` starts.
pub open spec fn find_double_colon(s: Seq<char>, from: int) -> Option<int>
    decreases s.len() - from,
{
    if from < 0 || from + 1 >= s.len() {
        None
    } else if s[from] == ':' && s[from + 1] == ':' {
        Some(from)
    } else {
        find_double_colon(s, from + 1)
    }
}

/// An IPv6 address: eight groups, or a run before the first `::` (without
/// an embedded IPv4 address) and a run after it that together hold at most
/// seven groups, `::` standing for the missing zero groups.
pub open spec fn is_ipv6_text(s: Seq<char>) -> bool {
    match find_double_colon(s, 0) {
        None => group_run(s) matches Some((n, _)) && n == 8,
        Some(k) => {
            match (group_run(s.subrange(0, k)), group_run(s.subrange(k + 2, s.len() as int))) {
                (Some((h, v4)), Some((t, _))) => !v4 && h + t <= 7,
                _ => false,
            }
        },
    }
}

fn is_dec_digit_char(c: char) -> (b: bool)
    ensures
        b == is_dec_digit(c),
{
    '0' <= c && c <= '9'
}

fn is_hex_digit_char(c: char) -> (b: bool)
    ensures
        b == is_hex_digit(c),
{
    ('0' <= c && c <= '9') || ('a' <= c && c <= 'f') || ('A' <= c && c <= 'F')
}

fn octet_ok(p: &str) -> (ok: bool)
    ensures
        ok == is_octet(p@),
{
    let n = p.unicode_len();
    if n < 1 || n > 3 {
        return false;
    }
    let mut value: u32 = 0;
    let mut i: usize = 0;
    assert(p@.take(0) =~= Seq::<char>::empty());
    while i < n
        invariant
            n == p@.len(),
            1 <= n <= 3,
            i <= n,
            value as int == dec_value(p@.take(i as int)),
            value < 1000,
            value <= if i == 0 { 0int } else if i == 1 { 9int } else if i == 2 { 99int } else { 999int },
            forall|j: int| 0 <= j < i ==> is_dec_digit(#[trigger] p@[j]),
        decreases n - i,
    {
        let c = p.get_char(i);
        if !is_dec_digit_char(c) {
            return false;
        }
        assert(p@.take(i + 1).drop_last() =~= p@.take(i as int));
        assert(p@.take(i + 1).last() == c);
        let d = (c as u32) - ('0' as u32);
        value = value * 10 + d;
        i = i + 1;
    }
    assert(p@.take(n as int) =~= p@);
    let first = p.get_char(0);
    if first == '0' && n > 1 {
        return false;
    }
    value <= 255
}

/// Whether `s` is an IPv4 address in dotted decimal form.
pub fn valid_ipv4_text(s: &str) -> (ok: bool)
    ensures
        ok == is_ipv4_text(s@),
{
    let parts = split_on(s, '.');
    if parts.len() != 4 {
        return false;
    }
    let mut i: usize = 0;
    while i < 4
        invariant
            parts.len() == 4,
            views(parts@) == split_spec(s@, '.'),
            i <= 4,
            forall|j: int| 0 <= j < i ==> is_octet(#[trigger] split_spec(s@, '.')[j]),
        decreases 4 - i,
    {
        let ok = octet_ok(parts[i].as_str());
        assert(views(parts@)[i as int] == parts@[i as int]@);
        if !ok {
            return false;
        }
        i = i + 1;
    }
    true
}

fn hex_group_ok(p: &str) -> (ok: bool)
    ensures
        ok == is_hex_group(p@),
{
    let n = p.unicode_len();
    if n < 1 || n > 4 {
        return false;
    }
    let mut i: usize = 0;
    while i < n
        invariant
            n == p@.len(),
            i <= n,
            forall|j: int| 0 <= j < i ==> is_hex_digit(#[trigger] p@[j]),
        decreases n - i,
    {
        if !is_hex_digit_char(p.get_char(i)) {
            return false;
        }
        i = i + 1;
    }
    true
}

/// The number of colon-separated parts of `s` and whether the last is an
/// embedded IPv4 address, when `s` is a group run.
fn group_run_of(s: &str) -> (res: Option<(usize, bool)>)
    ensures
        match res {
            Some((n, v4)) => group_run(s@) == Some(((n + if v4 { 1nat } else { 0nat }) as nat, v4)),
            None => group_run(s@) is None,
        },
{
    if s.unicode_len() == 0 {
        return Some((0, false));
    }
    let parts = split_on(s, ':');
    let ghost ps = split_spec(s@, ':');
    let n = parts.len();
    proof {
        crate::text::lemma_split_nonempty(s@, ':');
    }
    // count the leading hex groups
    let mut i: usize = 0;
    while i < n
        invariant
            n == parts.len(),
            views(parts@) == ps,
            n >= 1,
            i <= n,
            forall|j: int| 0 <= j < i ==> is_hex_group(#[trigger] ps[j]),
        ensures
            i <= n,
            forall|j: int| 0 <= j < i ==> is_hex_group(#[trigger] ps[j]),
            i < n ==> !is_hex_group(ps[i as int]),
        decreases n - i,
    {
        assert(views(parts@)[i as int] == parts@[i as int]@);
        if !hex_group_ok(parts[i].as_str()) {
            break;
        }
        i = i + 1;
    }
    if i == n {
        return Some((n, false));
    }
    assert(!is_hex_group(ps[i as int]));
    if i + 1 == n {
        assert(views(parts@)[i as int] == parts@[i as int]@);
        if valid_ipv4_text(parts[i].as_str()) {
            assert(ps.last() == ps[i as int]);
            return Some((n, true));
        }
    }
    None
}

fn double_colon_in(s: &str) -> (res: Option<usize>)
    ensures
        match res {
            Some(k) => find_double_colon(s@, 0) == Some(k as int) && k + 1 < s@.len(),
            None => find_double_colon(s@, 0) is None,
        },
{
    let n = s.unicode_len();
    let mut i: usize = 0;
    while i < n && i + 1 < n
        invariant
            n == s@.len(),
            i <= n,
            find_double_colon(s@, 0) == find_double_colon(s@, i as int),
        decreases n - i,
    {
        if s.get_char(i) == ':' && s.get_char(i + 1) == ':' {
            return Some(i);
        }
        i = i + 1;
    }
    None
}

/// Whether `s` is an IPv6 address in the colon-separated hexadecimal form,
/// with or without `::` and an embedded IPv4 address.
pub fn valid_ipv6_text(s: &str) -> (ok: bool)
    ensures
        ok == is_ipv6_text(s@),
{
    let n = s.unicode_len();
    match double_colon_in(s) {
        None => match group_run_of(s) {
            Some((k, v4)) => (k == 8 && !v4) || (k == 7 && v4),
            None => false,
        },
        Some(k) => {
            let head = s.substring_char(0, k);
            let tail = s.substring_char(k + 2, n);
            match (group_run_of(head), group_run_of(tail)) {
                (Some((h, hv4)), Some((t, tv4))) => {
                    !hv4 && h <= 7 && t <= 7 && h + t + (if tv4 { 1 } else { 0 }) <= 7
                },
                _ => false,
            }
        },
    }
}

} // verus!

verus! {

/// A decimal digit.
pub open spec fn digit_char(c: char) -> bool {
    '0' <= c && c <= '9'
}

/// A hexadecimal digit, in either case.
pub open spec fn hex_char(c: char) -> bool {
    ('0' <= c && c <= '9') || ('a' <= c && c <= 'f') || ('A' <= c && c <= 'F')
}

/// The value of a decimal digit.
pub open spec fn digit_value(c: char) -> int {
    c as int - '0' as int
}

/// The number that one to three decimal digits write.
pub open spec fn octet_number(s: Seq<char>) -> int {
    if s.len() == 1 {
        digit_value(s[0])
    } else if s.len() == 2 {
        10 * digit_value(s[0]) + digit_value(s[1])
    } else {
        100 * digit_value(s[0]) + 10 * digit_value(s[1]) + digit_value(s[2])
    }
}

/// A number from 0 to 255 written in decimal without a leading zero.
pub open spec fn canonical_octet(s: Seq<char>) -> bool {
    &&& 1 <= s.len() <= 3
    &&& forall|i: int| 0 <= i < s.len() ==> digit_char(#[trigger] s[i])
    &&& (s.len() > 1 ==> s[0] != '0')
    &&& octet_number(s) <= 255
}

/// One to four hexadecimal digits.
pub open spec fn hex_digits(s: Seq<char>) -> bool {
    &&& 1 <= s.len() <= 4
    &&& forall|i: int| 0 <= i < s.len() ==> hex_char(#[trigger] s[i])
}

/// The parts of a dotted IPv4 address are exactly the numbers 0 to 255
/// written in decimal without a leading zero.
pub proof fn law_octets_are_numbers_to_255(s: Seq<char>)
    ensures
        is_octet(s) <==> canonical_octet(s),
{
    if 1 <= s.len() <= 3 && forall|i: int| 0 <= i < s.len() ==> digit_char(#[trigger] s[i]) {
        let a = s.drop_last();
        let b = a.drop_last();
        assert(dec_value(Seq::<char>::empty()) == 0);
        if s.len() == 1 {
            assert(a.len() == 0);
            assert(dec_value(s) == dec_value(a) * 10 + digit_value(s[0]));
        } else if s.len() == 2 {
            assert(b.len() == 0);
            assert(dec_value(a) == dec_value(b) * 10 + digit_value(s[0]));
            assert(dec_value(s) == dec_value(a) * 10 + digit_value(s[1]));
        } else {
            let c = b.drop_last();
            assert(c.len() == 0);
            assert(dec_value(b) == dec_value(c) * 10 + digit_value(s[0]));
            assert(dec_value(a) == dec_value(b) * 10 + digit_value(s[1]));
            assert(dec_value(s) == dec_value(a) * 10 + digit_value(s[2]));
        }
        assert(dec_value(s) == octet_number(s));
    }
}

/// The groups of an IPv6 address are exactly the runs of one to four
/// hexadecimal digits.
pub proof fn law_hex_groups_are_one_to_four_digits(s: Seq<char>)
    ensures
        is_hex_group(s) <==> hex_digits(s),
{
}

/// Four numbers from 0 to 255, written without leading zeros and joined
/// by dots, make an IPv4 address; and every IPv4 address is such a text.
pub proof fn law_ipv4_is_four_numbers(s: Seq<char>)
    ensures
        is_ipv4_text(s) <==> exists|a: Seq<char>, b: Seq<char>, c: Seq<char>, d: Seq<char>|
            canonical_octet(a) && canonical_octet(b) && canonical_octet(c) && canonical_octet(d) && s
                == a + seq!['.'] + b + seq!['.'] + c + seq!['.'] + d,
{
    if is_ipv4_text(s) {
        let p = split_spec(s, '.');
        lemma_join_split(s, '.');
        law_octets_are_numbers_to_255(p[0]);
        law_octets_are_numbers_to_255(p[1]);
        law_octets_are_numbers_to_255(p[2]);
        law_octets_are_numbers_to_255(p[3]);
        assert(is_octet(p[0]) && is_octet(p[1]) && is_octet(p[2]) && is_octet(p[3]));
        let sep = seq!['.'];
        assert(p.drop_last().drop_last().drop_last() =~= seq![p[0]]);
        assert(p.drop_last().drop_last() =~= seq![p[0], p[1]]);
        assert(p.drop_last() =~= seq![p[0], p[1], p[2]]);
        assert(join_spec(seq![p[0]], sep) == p[0]);
        assert(join_spec(seq![p[0], p[1]], sep) == p[0] + sep + p[1]);
        assert(join_spec(seq![p[0], p[1], p[2]], sep) == p[0] + sep + p[1] + sep + p[2]);
        assert(s == p[0] + sep + p[1] + sep + p[2] + sep + p[3]);
    }
    if exists|a: Seq<char>, b: Seq<char>, c: Seq<char>, d: Seq<char>|
        canonical_octet(a) && canonical_octet(b) && canonical_octet(c) && canonical_octet(d) && s
            == a + seq!['.'] + b + seq!['.'] + c + seq!['.'] + d {
        let (a, b, c, d) = choose|a: Seq<char>, b: Seq<char>, c: Seq<char>, d: Seq<char>|
            canonical_octet(a) && canonical_octet(b) && canonical_octet(c) && canonical_octet(d) && s
                == a + seq!['.'] + b + seq!['.'] + c + seq!['.'] + d;
        let p = seq![a, b, c, d];
        assert forall|i: int| 0 <= i < p.len() implies !(#[trigger] p[i]).contains('.') by {
            let q = p[i];
            assert(canonical_octet(q));
            if q.contains('.') {
                let j = choose|j: int| 0 <= j < q.len() && q[j] == '.';
                assert(digit_char(q[j]));
            }
        }
        lemma_split_join(p, '.');
        let sep = seq!['.'];
        assert(p.drop_last() =~= seq![a, b, c]);
        assert(p.drop_last().drop_last() =~= seq![a, b]);
        assert(p.drop_last().drop_last().drop_last() =~= seq![a]);
        assert(join_spec(seq![a], sep) == a);
        assert(join_spec(seq![a, b], sep) == a + sep + b);
        assert(join_spec(seq![a, b, c], sep) == a + sep + b + sep + c);
        assert(join_spec(p, sep) == s);
        law_octets_are_numbers_to_255(a);
        law_octets_are_numbers_to_255(b);
        law_octets_are_numbers_to_255(c);
        law_octets_are_numbers_to_255(d);
        assert(split_spec(s, '.') == p);
        assert forall|i: int| 0 <= i < 4 implies is_octet(#[trigger] split_spec(s, '.')[i]) by {
            assert(split_spec(s, '.')[i] == p[i]);
        }
    }
}

/// No two colons stand next to each other at or after `from`.
pub open spec fn no_double_colon_from(s: Seq<char>, from: int) -> bool {
    forall|i: int| from <= i && i + 1 < s.len() ==> !(#[trigger] s[i] == ':' && s[i + 1] == ':')
}

proof fn lemma_find_none(s: Seq<char>, from: int)
    requires
        0 <= from,
        no_double_colon_from(s, from),
    ensures
        find_double_colon(s, from) is None,
    decreases s.len() - from,
{
    if from + 1 < s.len() {
        assert(!(s[from] == ':' && s[from + 1] == ':'));
        lemma_find_none(s, from + 1);
    }
}

proof fn lemma_find_at(s: Seq<char>, from: int, k: int)
    requires
        0 <= from <= k,
        k + 1 < s.len(),
        s[k] == ':' && s[k + 1] == ':',
        forall|i: int| from <= i < k ==> !(#[trigger] s[i] == ':' && s[i + 1] == ':'),
    ensures
        find_double_colon(s, from) == Some(k),
    decreases k - from,
{
    if from < k {
        lemma_find_at(s, from + 1, k);
    }
}

proof fn lemma_groups_no_colon(gs: Seq<Seq<char>>)
    requires
        forall|i: int| 0 <= i < gs.len() ==> hex_digits(#[trigger] gs[i]),
    ensures
        forall|i: int| 0 <= i < gs.len() ==> !(#[trigger] gs[i]).contains(':'),
{
    assert forall|i: int| 0 <= i < gs.len() implies !(#[trigger] gs[i]).contains(':') by {
        let g = gs[i];
        if g.contains(':') {
            let j = choose|j: int| 0 <= j < g.len() && g[j] == ':';
            assert(hex_char(g[j]));
        }
    }
}

/// Hex groups joined by single colons: not empty, no two colons next to
/// each other, and neither end a colon.
proof fn lemma_joined_groups(gs: Seq<Seq<char>>)
    requires
        gs.len() >= 1,
        forall|i: int| 0 <= i < gs.len() ==> hex_digits(#[trigger] gs[i]),
    ensures
        join_spec(gs, seq![':']).len() > 0,
        no_double_colon_from(join_spec(gs, seq![':']), 0),
        join_spec(gs, seq![':'])[0] != ':',
        join_spec(gs, seq![':']).last() != ':',
    decreases gs.len(),
{
    let l = gs.last();
    assert(hex_digits(gs[gs.len() - 1]));
    assert(hex_char(l[0]));
    assert(hex_char(l[l.len() - 1]));
    if gs.len() > 1 {
        let init = gs.drop_last();
        assert forall|i: int| 0 <= i < init.len() implies hex_digits(#[trigger] init[i]) by {
            assert(init[i] == gs[i]);
        }
        lemma_joined_groups(init);
        let j = join_spec(init, seq![':']);
        let t = join_spec(gs, seq![':']);
        assert(t == j + seq![':'] + l);
        assert forall|i: int| 0 <= i && i + 1 < t.len() implies !(#[trigger] t[i] == ':' && t[i + 1] == ':') by {
            if i + 1 < j.len() {
                assert(t[i] == j[i] && t[i + 1] == j[i + 1]);
            } else if i + 1 == j.len() {
                assert(t[i] == j.last());
            } else if i == j.len() {
                assert(t[i + 1] == l[0]);
            } else {
                assert(t[i] == l[i - j.len() - 1]);
                assert(hex_char(l[i - j.len() - 1]));
            }
        }
        assert(t[0] == j[0]);
        assert(t.last() == l.last());
    }
}

proof fn lemma_run_of_groups(gs: Seq<Seq<char>>)
    requires
        forall|i: int| 0 <= i < gs.len() ==> hex_digits(#[trigger] gs[i]),
    ensures
        group_run(join_spec(gs, seq![':'])) == Some((gs.len(), false)),
{
    if gs.len() == 0 {
        assert(join_spec(gs, seq![':']) =~= Seq::<char>::empty());
    } else {
        lemma_groups_no_colon(gs);
        lemma_split_join(gs, ':');
        lemma_joined_groups(gs);
        let t = join_spec(gs, seq![':']);
        assert forall|i: int| 0 <= i < split_spec(t, ':').len() implies is_hex_group(
            #[trigger] split_spec(t, ':')[i],
        ) by {
            assert(hex_digits(gs[i]));
        }
    }
}

/// Eight groups of one to four hexadecimal digits joined by colons make an
/// IPv6 address.
pub proof fn law_eight_groups_are_ipv6(gs: Seq<Seq<char>>)
    requires
        gs.len() == 8,
        forall|i: int| 0 <= i < gs.len() ==> hex_digits(#[trigger] gs[i]),
    ensures
        is_ipv6_text(join_spec(gs, seq![':'])),
{
    lemma_joined_groups(gs);
    lemma_find_none(join_spec(gs, seq![':']), 0);
    lemma_run_of_groups(gs);
}

/// Groups before and after a `::` make an IPv6 address when there are at
/// most seven of them in all (either side may be empty); `::` stands for
/// the zero groups left out.
pub proof fn law_compressed_groups_are_ipv6(head: Seq<Seq<char>>, tail: Seq<Seq<char>>)
    requires
        head.len() + tail.len() <= 7,
        forall|i: int| 0 <= i < head.len() ==> hex_digits(#[trigger] head[i]),
        forall|i: int| 0 <= i < tail.len() ==> hex_digits(#[trigger] tail[i]),
    ensures
        is_ipv6_text(join_spec(head, seq![':']) + seq![':', ':'] + join_spec(tail, seq![':'])),
{
    let h = join_spec(head, seq![':']);
    let t = join_spec(tail, seq![':']);
    let s = h + seq![':', ':'] + t;
    let k = h.len() as int;
    if head.len() > 0 {
        lemma_joined_groups(head);
        assert forall|i: int| 0 <= i < k implies !(#[trigger] s[i] == ':' && s[i + 1] == ':') by {
            if i + 1 < k {
                assert(s[i] == h[i] && s[i + 1] == h[i + 1]);
            } else {
                assert(s[i] == h.last());
            }
        }
    } else {
        assert(h =~= Seq::<char>::empty());
    }
    assert(s[k] == ':' && s[k + 1] == ':');
    lemma_find_at(s, 0, k);
    assert(s.subrange(0, k) =~= h);
    assert(s.subrange(k + 2, s.len() as int) =~= t);
    lemma_run_of_groups(head);
    lemma_run_of_groups(tail);
}

/// An IPv6 address written without `::` and without an embedded IPv4
/// address is exactly eight groups of one to four hexadecimal digits.
pub proof fn law_plain_ipv6_has_eight_groups(s: Seq<char>)
    requires
        is_ipv6_text(s),
        no_double_colon_from(s, 0),
        !s.contains('.'),
    ensures
        split_spec(s, ':').len() == 8,
        forall|i: int| 0 <= i < 8 ==> hex_digits(#[trigger] split_spec(s, ':')[i]),
{
    lemma_find_none(s, 0);
    let parts = split_spec(s, ':');
    lemma_split_nonempty(s, ':');
    lemma_join_split(s, ':');
    let last = parts.last();
    assert(!last.contains('.')) by {
        if last.contains('.') {
            let j = choose|j: int| 0 <= j < last.len() && last[j] == '.';
            if parts.len() == 1 {
                assert(join_spec(parts, seq![':']) == parts[0]);
                assert(s[j] == '.');
            } else {
                let pre = join_spec(parts.drop_last(), seq![':']) + seq![':'];
                assert(s == pre + last);
                assert(s[pre.len() + j] == '.');
            }
        }
    }
    lemma_split_without_sep(last, '.');
    assert(!is_ipv4_text(last));
    assert forall|i: int| 0 <= i < 8 implies hex_digits(#[trigger] split_spec(s, ':')[i]) by {
        assert(is_hex_group(parts[i]));
    }
}

} // verus!
