use vstd::prelude::*;

verus! {

/// The pieces of `s` between occurrences of `c`, in order; `c` itself is dropped.
/// There is always one piece more than there are occurrences of `c`.
pub open spec fn split(s: Seq<char>, c: char) -> Seq<Seq<char>>
    decreases s.len(),
{
    if s.len() == 0 {
        seq![seq![]]
    } else {
        let parts = split(s.drop_last(), c);
        if s.last() == c {
            parts.push(seq![])
        } else {
            parts.update(parts.len() - 1, parts.last().push(s.last()))
        }
    }
}

/// The parts, with `sep` between each two.
pub open spec fn join_with(parts: Seq<Seq<char>>, sep: Seq<char>) -> Seq<char>
    decreases parts.len(),
{
    if parts.len() == 0 {
        seq![]
    } else if parts.len() == 1 {
        parts[0]
    } else {
        join_with(parts.drop_last(), sep) + sep + parts.last()
    }
}

/// What a sequence of strings holds, as character sequences.
pub open spec fn views(v: Seq<String>) -> Seq<Seq<char>> {
    v.map_values(|x: String| x@)
}

pub proof fn lemma_split_nonempty(s: Seq<char>, c: char)
    ensures
        split(s, c).len() >= 1,
    decreases s.len(),
{
    if s.len() > 0 {
        lemma_split_nonempty(s.drop_last(), c);
    }
}

/// The pieces of `s` between occurrences of `c`.
pub fn split_on(s: &str, c: char) -> (r: Vec<String>)
    ensures
        views(r@) == split(s@, c),
{
    let n = s.unicode_len();
    let mut done: Vec<String> = Vec::new();
    let mut start: usize = 0;
    let mut i: usize = 0;
    assert(s@.take(0) =~= seq![]);
    assert(s@.subrange(0, 0) =~= seq![]);
    assert(views(done@).push(s@.subrange(0, 0)) =~= split(s@.take(0), c));
    while i < n
        invariant
            n == s@.len(),
            start <= i <= n,
            views(done@).push(s@.subrange(start as int, i as int)) == split(s@.take(i as int), c),
        decreases n - i,
    {
        let ch = s.get_char(i);
        let ghost t = s@.take(i + 1);
        assert(t.drop_last() =~= s@.take(i as int));
        assert(t.last() == ch);
        if ch == c {
            let piece = s.substring_char(start, i).to_owned();
            let ghost before = views(done@);
            done.push(piece);
            assert(views(done@) =~= before.push(piece@));
            start = i + 1;
            assert(s@.subrange(start as int, i + 1) =~= seq![]);
        } else {
            assert(s@.subrange(start as int, i + 1) =~= s@.subrange(start as int, i as int).push(ch));
        }
        i = i + 1;
    }
    let last = s.substring_char(start, n).to_owned();
    assert(s@.take(n as int) =~= s@);
    let ghost before = views(done@);
    done.push(last);
    assert(views(done@) =~= before.push(last@));
    done
}

/// The parts from index `from` on, joined with `sep` between each two.
pub fn join_from(parts: &Vec<String>, from: usize, sep: &str) -> (r: String)
    requires
        from <= parts@.len(),
    ensures
        r@ == join_with(views(parts@).skip(from as int), sep@),
{
    let mut s = String::new();
    let mut i: usize = from;
    assert(views(parts@).skip(from as int).take(0) =~= seq![]);
    while i < parts.len()
        invariant
            from <= i <= parts@.len(),
            s@ == join_with(views(parts@).skip(from as int).take(i - from), sep@),
        decreases parts@.len() - i,
    {
        let ghost t = views(parts@).skip(from as int).take(i - from + 1);
        assert(t.drop_last() =~= views(parts@).skip(from as int).take(i - from));
        assert(t.last() == parts@[i as int]@);
        if i > from {
            s.append(sep);
        }
        s.append(parts[i].as_str());
        assert(s@ =~= join_with(t, sep@));
        i = i + 1;
    }
    assert(views(parts@).skip(from as int).take(i - from) =~= views(parts@).skip(from as int));
    s
}

} // verus!
