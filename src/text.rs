use vstd::prelude::*;

verus! {

/// `s` holds no `c`.
pub open spec fn free_of(s: Seq<char>, c: char) -> bool {
    forall|i: int| 0 <= i < s.len() ==> s[i] != c
}

/// The pieces of `s` between occurrences of `sep`, in order; a text with `k` separators has
/// `k + 1` pieces, some of them possibly empty.
pub open spec fn pieces(s: Seq<char>, sep: char) -> Seq<Seq<char>>
    decreases s.len(),
{
    if s.len() == 0 {
        seq![Seq::empty()]
    } else {
        let p = pieces(s.drop_last(), sep);
        if s.last() == sep {
            p.push(Seq::empty())
        } else {
            p.update(p.len() - 1, p.last().push(s.last()))
        }
    }
}

/// `parts` written one after another with `sep` between neighbours.
pub open spec fn join(parts: Seq<Seq<char>>, sep: char) -> Seq<char>
    decreases parts.len(),
{
    if parts.len() == 0 {
        Seq::empty()
    } else if parts.len() == 1 {
        parts[0]
    } else {
        join(parts.drop_last(), sep).push(sep) + parts.last()
    }
}

/// The characters held by each vector of `v`.
pub open spec fn views(v: Seq<Vec<char>>) -> Seq<Seq<char>> {
    v.map_values(|x: Vec<char>| x@)
}

/// A text always splits into at least one piece.
pub proof fn lemma_pieces_nonempty(s: Seq<char>, sep: char)
    ensures
        pieces(s, sep).len() >= 1,
    decreases s.len(),
{
    if s.len() > 0 {
        lemma_pieces_nonempty(s.drop_last(), sep);
    }
}

/// Appending text free of the separator extends the last piece.
pub proof fn lemma_pieces_extend(x: Seq<char>, l: Seq<char>, sep: char)
    requires
        free_of(l, sep),
    ensures
        pieces(x + l, sep) == pieces(x, sep).update(
            pieces(x, sep).len() - 1,
            pieces(x, sep).last() + l,
        ),
    decreases l.len(),
{
    lemma_pieces_nonempty(x, sep);
    let p = pieces(x, sep);
    if l.len() == 0 {
        assert(x + l =~= x);
        assert(p.last() + l =~= p.last());
        assert(p.update(p.len() - 1, p.last()) =~= p);
    } else {
        let l2 = l.drop_last();
        assert((x + l).drop_last() =~= x + l2);
        assert((x + l).last() == l.last());
        lemma_pieces_extend(x, l2, sep);
        assert((p.last() + l2).push(l.last()) =~= p.last() + l);
        assert(pieces(x + l, sep) =~= p.update(p.len() - 1, p.last() + l));
    }
}

/// Splitting a joined sequence of separator-free parts gives the parts back.
pub proof fn lemma_pieces_join(parts: Seq<Seq<char>>, sep: char)
    requires
        parts.len() >= 1,
        forall|i: int| 0 <= i < parts.len() ==> free_of(#[trigger] parts[i], sep),
    ensures
        pieces(join(parts, sep), sep) == parts,
    decreases parts.len(),
{
    if parts.len() == 1 {
        lemma_pieces_extend(Seq::empty(), parts[0], sep);
        assert(Seq::<char>::empty() + parts[0] =~= parts[0]);
        assert(seq![Seq::<char>::empty()].update(0, Seq::<char>::empty() + parts[0]) =~= parts);
    } else {
        let init = parts.drop_last();
        assert forall|i: int| 0 <= i < init.len() implies free_of(#[trigger] init[i], sep) by {
            assert(init[i] == parts[i]);
        }
        lemma_pieces_join(init, sep);
        let j = join(init, sep).push(sep);
        assert(j.drop_last() =~= join(init, sep));
        assert(pieces(j, sep) == init.push(Seq::empty()));
        assert(free_of(parts[parts.len() - 1], sep));
        lemma_pieces_extend(j, parts.last(), sep);
        assert(Seq::<char>::empty() + parts.last() =~= parts.last());
        assert(init.push(Seq::empty()).update(init.len() as int, parts.last()) =~= parts);
    }
}

/// Joining parts that hold no `c` with a separator other than `c` gives a text without `c`.
pub proof fn lemma_join_free_of(parts: Seq<Seq<char>>, sep: char, c: char)
    requires
        sep != c,
        forall|i: int| 0 <= i < parts.len() ==> free_of(#[trigger] parts[i], c),
    ensures
        free_of(join(parts, sep), c),
    decreases parts.len(),
{
    if parts.len() > 1 {
        let init = parts.drop_last();
        assert forall|i: int| 0 <= i < init.len() implies free_of(#[trigger] init[i], c) by {
            assert(init[i] == parts[i]);
        }
        lemma_join_free_of(init, sep, c);
        assert(free_of(parts[parts.len() - 1], c));
        let j = join(init, sep).push(sep) + parts.last();
        assert forall|i: int| 0 <= i < j.len() implies j[i] != c by {
            if i < join(init, sep).len() {
                assert(j[i] == join(init, sep)[i]);
            } else if i > join(init, sep).len() {
                assert(j[i] == parts.last()[i - join(init, sep).len() - 1]);
            }
        }
    } else if parts.len() == 1 {
        assert(free_of(parts[0], c));
    }
}

/// Relies on std's `Chars` collected into a `Vec`: the characters of `s`, in order.
#[verifier::external_body]
pub(crate) fn chars_of(s: &str) -> (r: Vec<char>)
    ensures
        r@ == s@,
{
    s.chars().collect()
}

/// Relies on std's `String: FromIterator<&char>`: the string holding the characters of `v`, in
/// order.
#[verifier::external_body]
pub(crate) fn string_of(v: &Vec<char>) -> (r: String)
    ensures
        r@ == v@,
{
    v.iter().collect()
}

/// Whether `a` and `b` hold the same characters.
pub fn chars_eq(a: &Vec<char>, b: &Vec<char>) -> (r: bool)
    ensures
        r == (a@ == b@),
{
    if a.len() != b.len() {
        return false;
    }
    let mut i: usize = 0;
    while i < a.len()
        invariant
            i <= a@.len(),
            a@.len() == b@.len(),
            forall|k: int| 0 <= k < i ==> a@[k] == b@[k],
        decreases a.len() - i,
    {
        if a[i] != b[i] {
            return false;
        }
        i = i + 1;
    }
    assert(a@ =~= b@);
    true
}

/// Appends the characters of `src` to `dst`.
pub fn push_all(dst: &mut Vec<char>, src: &Vec<char>)
    ensures
        final(dst)@ == old(dst)@ + src@,
{
    let mut i: usize = 0;
    while i < src.len()
        invariant
            i <= src@.len(),
            dst@ == old(dst)@ + src@.subrange(0, i as int),
        decreases src.len() - i,
    {
        dst.push(src[i]);
        i = i + 1;
        assert(dst@ =~= old(dst)@ + src@.subrange(0, i as int));
    }
    assert(src@.subrange(0, i as int) =~= src@);
}

/// The pieces of `s` between occurrences of `sep`.
pub fn split_on(s: &Vec<char>, sep: char) -> (r: Vec<Vec<char>>)
    ensures
        views(r@) == pieces(s@, sep),
{
    let mut done: Vec<Vec<char>> = Vec::new();
    let mut cur: Vec<char> = Vec::new();
    let mut i: usize = 0;
    while i < s.len()
        invariant
            i <= s@.len(),
            views(done@).push(cur@) == pieces(s@.subrange(0, i as int), sep),
        decreases s.len() - i,
    {
        let c = s[i];
        let ghost prefix = s@.subrange(0, i as int);
        assert(s@.subrange(0, i + 1).drop_last() =~= prefix);
        if c == sep {
            let ghost old_done = done@;
            done.push(cur);
            cur = Vec::new();
            assert(views(done@) =~= views(old_done).push(views(done@).last()));
        } else {
            cur.push(c);
            assert(views(done@).push(cur@) =~= pieces(prefix, sep).update(
                pieces(prefix, sep).len() - 1,
                pieces(prefix, sep).last().push(c),
            ));
        }
        i = i + 1;
        assert(views(done@).push(cur@) =~= pieces(s@.subrange(0, i as int), sep));
    }
    assert(s@.subrange(0, i as int) =~= s@);
    let ghost old_done = done@;
    done.push(cur);
    assert(views(done@) =~= views(old_done).push(cur@));
    done
}

/// `parts` written one after another with `sep` between neighbours.
pub fn join_on(parts: &Vec<Vec<char>>, sep: char) -> (r: Vec<char>)
    ensures
        r@ == join(views(parts@), sep),
{
    let mut out: Vec<char> = Vec::new();
    let mut i: usize = 0;
    while i < parts.len()
        invariant
            i <= parts@.len(),
            out@ == join(views(parts@).subrange(0, i as int), sep),
        decreases parts.len() - i,
    {
        let ghost before = views(parts@).subrange(0, i as int);
        let ghost after = views(parts@).subrange(0, i + 1);
        assert(after.drop_last() =~= before);
        if i > 0 {
            out.push(sep);
        }
        push_all(&mut out, &parts[i]);
        i = i + 1;
        if i == 1 {
            assert(out@ =~= after[0]);
        }
    }
    assert(views(parts@).subrange(0, i as int) =~= views(parts@));
    out
}

} // verus!
