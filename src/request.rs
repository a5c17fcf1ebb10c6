use vstd::prelude::*;

use crate::location::{loc, Location};
use crate::text::{join_from, join_with, split, split_on, views};

verus! {

/// A query argument: the text before its first `=` is the key, the rest the value
/// (empty when there is no `=`).
pub open spec fn key_value(a: Seq<char>) -> (Seq<char>, Seq<char>) {
    let kv = split(a, '=');
    (kv[0], join_with(kv.drop_first(), "="@))
}

/// The path and the query arguments of an HTTP request, taken from the second
/// word of its first line: the path ends at the first `?`, and the text after it
/// (up to any further `?`) holds `&`-separated arguments. `None` when the first
/// line has no second word.
pub open spec fn request_target(t: Seq<char>) -> Option<(Seq<char>, Seq<(Seq<char>, Seq<char>)>)> {
    let words = split(split(t, '\n')[0], ' ');
    if words.len() < 2 {
        None
    } else {
        let parts = split(words[1], '?');
        let args = if parts.len() < 2 {
            seq![]
        } else {
            split(parts[1], '&').map_values(|a: Seq<char>| key_value(a))
        };
        Some((parts[0], args))
    }
}

/// What a sequence of argument pairs holds, as character sequences.
pub open spec fn pair_views(v: Seq<(String, String)>) -> Seq<(Seq<char>, Seq<char>)> {
    v.map_values(|p: (String, String)| (p.0@, p.1@))
}

/// The value of the last argument named `key`: a later argument overrides an
/// earlier one of the same name.
pub open spec fn lookup(args: Seq<(Seq<char>, Seq<char>)>, key: Seq<char>) -> Option<Seq<char>>
    decreases args.len(),
{
    if args.len() == 0 {
        None
    } else if args.last().0 == key {
        Some(args.last().1)
    } else {
        lookup(args.drop_last(), key)
    }
}

pub open spec fn is_digit(c: char) -> bool {
    '0' <= c <= '9'
}

/// The number the decimal digits `d` denote.
pub open spec fn digits_value(d: Seq<char>) -> int
    decreases d.len(),
{
    if d.len() == 0 {
        0
    } else {
        digits_value(d.drop_last()) * 10 + (d.last() as int - '0' as int)
    }
}

/// The digits of a number text: all of it, or what follows a leading `+`.
pub open spec fn digits_of(s: Seq<char>) -> Seq<char> {
    if s.len() > 0 && s[0] == '+' {
        s.drop_first()
    } else {
        s
    }
}

/// The square index a text names: one or more decimal digits, optionally after a
/// `+`, denoting a number below 64.
pub open spec fn square_index(s: Seq<char>) -> Option<int> {
    let d = digits_of(s);
    if d.len() > 0 && (forall|i: int| 0 <= i < d.len() ==> is_digit(#[trigger] d[i]))
        && digits_value(d) < 64 {
        Some(digits_value(d))
    } else {
        None
    }
}

/// The square a text names, as a row-major index.
pub open spec fn square_of(s: Seq<char>) -> Option<Location> {
    match square_index(s) {
        Some(n) => Some(loc(n % 8, n / 8)),
        None => None,
    }
}

proof fn lemma_digits_value_grows(d: Seq<char>)
    requires
        d.len() > 0,
        forall|i: int| 0 <= i < d.len() ==> is_digit(#[trigger] d[i]),
    ensures
        digits_value(d) >= digits_value(d.drop_last()),
        digits_value(d.drop_last()) >= 0,
    decreases d.len(),
{
    if d.len() > 1 {
        lemma_digits_value_grows(d.drop_last());
        assert(forall|i: int| 0 <= i < d.drop_last().len() ==> d.drop_last()[i] == d[i]);
    }
}

/// The path and query arguments of an HTTP request text, or `None` when its first
/// line has no second word.
pub fn parse_request(req: &str) -> (r: Option<(String, Vec<(String, String)>)>)
    ensures
        match request_target(req@) {
            None => r is None,
            Some((path, args)) => r matches Some((p, a)) && p@ == path && pair_views(a@) == args,
        },
{
    let lines = split_on(req, '\n');
    proof {
        crate::text::lemma_split_nonempty(req@, '\n');
    }
    let words = split_on(lines[0].as_str(), ' ');
    if words.len() < 2 {
        return None;
    }
    let parts = split_on(words[1].as_str(), '?');
    proof {
        crate::text::lemma_split_nonempty(words@[1]@, '?');
    }
    let path = parts[0].clone();
    let mut args: Vec<(String, String)> = Vec::new();
    if parts.len() >= 2 {
        let items = split_on(parts[1].as_str(), '&');
        let ghost want = split(parts@[1]@, '&').map_values(|a: Seq<char>| key_value(a));
        let mut i: usize = 0;
        while i < items.len()
            invariant
                i <= items@.len(),
                views(items@) == split(parts@[1]@, '&'),
                want == split(parts@[1]@, '&').map_values(|a: Seq<char>| key_value(a)),
                pair_views(args@) == want.take(i as int),
            decreases items@.len() - i,
        {
            let kv = split_on(items[i].as_str(), '=');
            proof {
                crate::text::lemma_split_nonempty(items@[i as int]@, '=');
            }
            let key = kv[0].clone();
            let value = join_from(&kv, 1, "=");
            assert(views(kv@).skip(1) =~= views(kv@).drop_first());
            let ghost before = pair_views(args@);
            args.push((key, value));
            assert(pair_views(args@) =~= before.push((key@, value@)));
            assert(want.take(i + 1) =~= want.take(i as int).push(want[i as int]));
            i = i + 1;
        }
        assert(want.take(i as int) =~= want);
    } else {
        assert(pair_views(args@) =~= seq![]);
    }
    Some((path, args))
}

/// The value of the last argument named `key`.
pub fn find_arg(args: &Vec<(String, String)>, key: &str) -> (r: Option<String>)
    ensures
        match lookup(pair_views(args@), key@) {
            None => r is None,
            Some(v) => r matches Some(s) && s@ == v,
        },
{
    let key_string = key.to_owned();
    let mut found: Option<String> = None;
    let mut i: usize = 0;
    while i < args.len()
        invariant
            i <= args@.len(),
            key_string@ == key@,
            match lookup(pair_views(args@).take(i as int), key@) {
                None => found is None,
                Some(v) => found matches Some(s) && s@ == v,
            },
        decreases args@.len() - i,
    {
        let ghost t = pair_views(args@).take(i + 1);
        assert(t.drop_last() =~= pair_views(args@).take(i as int));
        if args[i].0 == key_string {
            found = Some(args[i].1.clone());
        }
        i = i + 1;
    }
    assert(pair_views(args@).take(i as int) =~= pair_views(args@));
    found
}

/// The square a text names as a row-major index from 0 to 63, or `None` when the
/// text is not such a number.
pub fn location_from_string(s: &str) -> (r: Option<Location>)
    ensures
        r == square_of(s@),
        r matches Some(l) ==> l.wf(),
{
    let n = s.unicode_len();
    let mut i: usize = 0;
    if n > 0 && s.get_char(0) == '+' {
        i = 1;
    }
    let ghost d = digits_of(s@);
    assert(d =~= s@.skip(i as int));
    if i >= n {
        return None;
    }
    let mut value: u8 = 0;
    let mut big = false;
    let mut all_digits = true;
    let start = i;
    while i < n
        invariant
            n == s@.len(),
            start <= i <= n,
            start < n,
            d == s@.skip(start as int),
            all_digits <==> forall|j: int| 0 <= j < i - start ==> is_digit(#[trigger] d[j]),
            all_digits && !big ==> value == digits_value(d.take(i - start)) && value < 64,
            all_digits && big ==> digits_value(d.take(i - start)) >= 64,
        decreases n - i,
    {
        let c = s.get_char(i);
        let ghost t = d.take(i - start + 1);
        assert(t.drop_last() =~= d.take(i - start));
        assert(t.last() == c);
        if c < '0' || c > '9' {
            all_digits = false;
        } else if all_digits {
            proof {
                assert(forall|j: int| 0 <= j < t.len() ==> is_digit(#[trigger] t[j]));
                lemma_digits_value_grows(t);
            }
            if !big {
                let digit = (c as u32 - '0' as u32) as u8;
                if value >= 7 || value * 10 + digit >= 64 {
                    big = true;
                } else {
                    value = value * 10 + digit;
                }
            }
        }
        i = i + 1;
    }
    assert(d.take(i - start) =~= d);
    if all_digits && !big {
        Location::from_index(value)
    } else {
        None
    }
}

/// The origin and destination squares named by the `from` and `to` arguments, or
/// `None` when either is missing or names no square.
pub fn get_from_to(args: &Vec<(String, String)>) -> (r: Option<(Location, Location)>)
    ensures
        match (lookup(pair_views(args@), "from"@), lookup(pair_views(args@), "to"@)) {
            (Some(f), Some(t)) => match (square_of(f), square_of(t)) {
                (Some(a), Some(b)) => r == Some((a, b)),
                _ => r is None,
            },
            _ => r is None,
        },
        r matches Some((a, b)) ==> a.wf() && b.wf(),
{
    let from_raw = match find_arg(args, "from") {
        Some(v) => v,
        None => {
            return None;
        },
    };
    let to_raw = match find_arg(args, "to") {
        Some(v) => v,
        None => {
            return None;
        },
    };
    match (location_from_string(from_raw.as_str()), location_from_string(to_raw.as_str())) {
        (Some(a), Some(b)) => Some((a, b)),
        _ => None,
    }
}

} // verus!
