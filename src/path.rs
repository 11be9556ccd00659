use vstd::prelude::*;

verus! {

/// The pieces of `s` between `/` separators, empty pieces included.
pub open spec fn pieces(s: Seq<char>) -> Seq<Seq<char>>
    decreases s.len(),
{
    if s.len() == 0 {
        seq![Seq::<char>::empty()]
    } else {
        let p = pieces(s.drop_last());
        if s.last() == '/' {
            p.push(Seq::<char>::empty())
        } else {
            p.update(p.len() - 1, p.last().push(s.last()))
        }
    }
}

/// A component that survives normalization: neither empty nor `.`.
pub open spec fn kept_component(c: Seq<char>) -> bool {
    c.len() > 0 && c != seq!['.']
}

/// The components of `cs` that survive normalization, in order.
pub open spec fn kept(cs: Seq<Seq<char>>) -> Seq<Seq<char>>
    decreases cs.len(),
{
    if cs.len() == 0 {
        cs
    } else if kept_component(cs.last()) {
        kept(cs.drop_last()).push(cs.last())
    } else {
        kept(cs.drop_last())
    }
}

/// Components joined with `/` between them.
pub open spec fn join(cs: Seq<Seq<char>>) -> Seq<char>
    decreases cs.len(),
{
    if cs.len() == 0 {
        Seq::<char>::empty()
    } else if cs.len() == 1 {
        cs[0]
    } else {
        join(cs.drop_last()) + seq!['/'] + cs.last()
    }
}

/// A path with its `.` components (and empty ones) removed; a leading `/`
/// is kept.
pub open spec fn normalized(s: Seq<char>) -> Seq<char> {
    let root = if s.len() > 0 && s[0] == '/' { seq!['/'] } else { Seq::<char>::empty() };
    root + join(kept(pieces(s)))
}

proof fn lemma_pieces_nonempty(s: Seq<char>)
    ensures
        pieces(s).len() >= 1,
    decreases s.len(),
{
    if s.len() > 0 {
        lemma_pieces_nonempty(s.drop_last());
    }
}

proof fn lemma_join_push(k: Seq<Seq<char>>, x: Seq<char>)
    ensures
        join(k.push(x)) == (if k.len() == 0 { x } else { join(k) + seq!['/'] + x }),
{
    assert(k.push(x).drop_last() =~= k);
    if k.len() == 0 {
        assert(k.push(x)[0] == x);
    }
}

proof fn lemma_kept_step(ps: Seq<Seq<char>>)
    requires
        ps.len() >= 1,
    ensures
        kept(ps) == (if kept_component(ps.last()) {
            kept(ps.drop_last()).push(ps.last())
        } else {
            kept(ps.drop_last())
        }),
{
}

/// Normalizes a `/`-separated path by removing its current-directory
/// components.
pub fn normalize_path(path: &str) -> (r: String)
    ensures
        r@ == normalized(path@),
{
    let n = path.unicode_len();
    let mut out = String::new();
    if n > 0 && path.get_char(0) == '/' {
        out.append("/");
    }
    proof {
        reveal_strlit("/");
    }
    let ghost root = out@;
    let mut any = false;
    let mut start: usize = 0;
    let mut i: usize = 0;
    proof {
        assert(path@.subrange(0, 0) =~= Seq::<char>::empty());
    }
    while i < n
        invariant
            n == path@.len(),
            0 <= start <= i <= n,
            root == (if n > 0 && path@[0] == '/' { seq!['/'] } else { Seq::<char>::empty() }),
            pieces(path@.subrange(0, i as int)).len() >= 1,
            pieces(path@.subrange(0, i as int)).last() == path@.subrange(start as int, i as int),
            out@ == root + join(kept(pieces(path@.subrange(0, i as int)).drop_last())),
            any == (kept(pieces(path@.subrange(0, i as int)).drop_last()).len() > 0),
        decreases n - i,
    {
        let c = path.get_char(i);
        let ghost pre = path@.subrange(0, i as int);
        let ghost nxt = path@.subrange(0, i + 1);
        proof {
            assert(nxt.drop_last() =~= pre);
            assert(nxt.last() == c);
            lemma_pieces_nonempty(pre);
            lemma_pieces_nonempty(nxt);
        }
        if c == '/' {
            let piece = path.substring_char(start, i);
            let ghost ps = pieces(pre);
            proof {
                assert(pieces(nxt) == ps.push(Seq::<char>::empty()));
                assert(pieces(nxt).drop_last() =~= ps);
                assert(ps =~= ps.drop_last().push(ps.last()));
            }
            let keep = !(piece.unicode_len() == 0 || (piece.unicode_len() == 1 && piece.get_char(0) == '.'));
            proof {
                if piece@.len() == 1 {
                    assert(piece@ =~= seq![piece@[0]]);
                }
                assert(keep == kept_component(ps.last()));
                lemma_kept_step(ps);
                lemma_join_push(kept(ps.drop_last()), ps.last());
            }
            if keep {
                if any {
                    out.append("/");
                }
                out.append(piece);
                any = true;
            }
            start = i + 1;
            proof {
                assert(path@.subrange(start as int, i + 1) =~= Seq::<char>::empty());
                reveal_strlit("/");
                assert(out@ =~= root + join(kept(ps)));
            }
        } else {
            proof {
                let ps = pieces(pre);
                assert(pieces(nxt) == ps.update(ps.len() - 1, ps.last().push(c)));
                assert(pieces(nxt).drop_last() =~= ps.drop_last());
                assert(path@.subrange(start as int, i + 1) =~= path@.subrange(start as int, i as int).push(c));
            }
        }
        i = i + 1;
    }
    let piece = path.substring_char(start, n);
    proof {
        let ps = pieces(path@);
        assert(path@.subrange(0, n as int) =~= path@);
        lemma_pieces_nonempty(path@);
        assert(ps =~= ps.drop_last().push(ps.last()));
        if piece@.len() == 1 {
            assert(piece@ =~= seq![piece@[0]]);
        }
        lemma_kept_step(ps);
        lemma_join_push(kept(ps.drop_last()), ps.last());
    }
    let keep = !(piece.unicode_len() == 0 || (piece.unicode_len() == 1 && piece.get_char(0) == '.'));
    if keep {
        if any {
            out.append("/");
        }
        out.append(piece);
    }
    proof {
        reveal_strlit("/");
        assert(out@ =~= normalized(path@));
    }
    out
}

} // verus!
