use vstd::prelude::*;

verus! {

/// The pieces of `s` between slashes, in order; `"/a//b"` gives `"", "a", "", "b"`.
pub open spec fn split_slash(s: Seq<char>) -> Seq<Seq<char>>
    decreases s.len(),
{
    if s.len() == 0 {
        seq![Seq::empty()]
    } else {
        let p = split_slash(s.drop_last());
        if s.last() == '/' {
            p.push(Seq::empty())
        } else {
            p.update(p.len() - 1, p.last().push(s.last()))
        }
    }
}

/// A piece that names no component: empty (from a doubled or trailing slash) or `"."`.
pub open spec fn is_trivial(g: Seq<char>) -> bool {
    g.len() == 0 || g == seq!['.']
}

/// The pieces that name a component, in order.
pub open spec fn components(gs: Seq<Seq<char>>) -> Seq<Seq<char>>
    decreases gs.len(),
{
    if gs.len() == 0 {
        Seq::empty()
    } else if is_trivial(gs.last()) {
        components(gs.drop_last())
    } else {
        components(gs.drop_last()).push(gs.last())
    }
}

/// The names of the pseudo-filesystems mounted at the root: process information,
/// kernel objects, devices and runtime state.
pub open spec fn is_reserved_name(n: Seq<char>) -> bool {
    n == seq!['p', 'r', 'o', 'c'] || n == seq!['s', 'y', 's'] || n == seq!['d', 'e', 'v'] || n
        == seq!['r', 'u', 'n']
}

/// An absolute path with a single component, one of the reserved names: a
/// pseudo-filesystem directly under the root (`/proc`, `/sys/`, `//dev`, `/./run`).
pub open spec fn is_system_path(s: Seq<char>) -> bool {
    let cs = components(split_slash(s));
    s.len() > 0 && s[0] == '/' && cs.len() == 1 && is_reserved_name(cs[0])
}

proof fn lemma_split_nonempty(s: Seq<char>)
    ensures
        split_slash(s).len() >= 1,
    decreases s.len(),
{
    if s.len() > 0 {
        lemma_split_nonempty(s.drop_last());
    }
}

fn is_trivial_piece(g: &Vec<char>) -> (r: bool)
    ensures
        r == is_trivial(g@),
{
    if g.len() == 0 {
        true
    } else if g.len() == 1 && g[0] == '.' {
        assert(g@ =~= seq!['.']);
        true
    } else {
        false
    }
}

fn is_reserved(n: &Vec<char>) -> (r: bool)
    ensures
        r == is_reserved_name(n@),
{
    let ok = if n.len() == 4 {
        n[0] == 'p' && n[1] == 'r' && n[2] == 'o' && n[3] == 'c'
    } else if n.len() == 3 {
        (n[0] == 's' && n[1] == 'y' && n[2] == 's') || (n[0] == 'd' && n[1] == 'e' && n[2] == 'v')
            || (n[0] == 'r' && n[1] == 'u' && n[2] == 'n')
    } else {
        false
    };
    proof {
        if ok {
            if n.len() == 4 {
                assert(n@ =~= seq!['p', 'r', 'o', 'c']);
            } else if n[0] == 's' {
                assert(n@ =~= seq!['s', 'y', 's']);
            } else if n[0] == 'd' {
                assert(n@ =~= seq!['d', 'e', 'v']);
            } else {
                assert(n@ =~= seq!['r', 'u', 'n']);
            }
        } else {
            if n@ == seq!['p', 'r', 'o', 'c'] {
                assert(n@[0] == 'p' && n@[1] == 'r' && n@[2] == 'o' && n@[3] == 'c');
            }
            if n@ == seq!['s', 'y', 's'] {
                assert(n@[0] == 's' && n@[1] == 'y' && n@[2] == 's');
            }
            if n@ == seq!['d', 'e', 'v'] {
                assert(n@[0] == 'd' && n@[1] == 'e' && n@[2] == 'v');
            }
            if n@ == seq!['r', 'u', 'n'] {
                assert(n@[0] == 'r' && n@[1] == 'u' && n@[2] == 'n');
            }
        }
    }
    ok
}

/// Whether `path` is the root of a pseudo-filesystem that a scan never enters: its
/// only component is `proc`, `sys`, `dev` or `run` and its parent is the root.
/// A directory of one of those names anywhere else is not excluded.
pub fn is_system_dir(path: &str) -> (r: bool)
    ensures
        r == is_system_path(path@),
{
    let n = path.unicode_len();
    if n == 0 {
        return false;
    }
    if path.get_char(0) != '/' {
        return false;
    }
    let mut cur: Vec<char> = Vec::new();
    let mut count: usize = 0;
    let mut first: Vec<char> = Vec::new();
    let mut i: usize = 0;
    proof {
        assert(path@.take(0) =~= Seq::<char>::empty());
    }
    while i < n
        invariant
            n == path@.len(),
            i <= n,
            split_slash(path@.take(i as int)).len() >= 1,
            cur@ == split_slash(path@.take(i as int)).last(),
            count == components(split_slash(path@.take(i as int)).drop_last()).len(),
            count + cur@.len() <= i,
            count >= 1 ==> first@ == components(split_slash(path@.take(i as int)).drop_last())[0],
        decreases n - i,
    {
        let c = path.get_char(i);
        let ghost p = split_slash(path@.take(i as int));
        proof {
            assert(path@.take(i + 1).drop_last() =~= path@.take(i as int));
            assert(path@.take(i + 1).last() == c);
            lemma_split_nonempty(path@.take(i + 1));
        }
        if c == '/' {
            proof {
                assert(split_slash(path@.take(i + 1)) == p.push(Seq::empty()));
                assert(split_slash(path@.take(i + 1)).drop_last() =~= p);
                assert(p =~= p.drop_last().push(p.last()));
            }
            if !is_trivial_piece(&cur) {
                if count == 0 {
                    first = cur;
                }
                count = count + 1;
            }
            cur = Vec::new();
        } else {
            cur.push(c);
            proof {
                let q = split_slash(path@.take(i + 1));
                assert(q == p.update(p.len() - 1, p.last().push(c)));
                assert(q.drop_last() =~= p.drop_last());
            }
        }
        i = i + 1;
    }
    proof {
        assert(path@.take(n as int) =~= path@);
        let p = split_slash(path@);
        assert(p =~= p.drop_last().push(p.last()));
    }
    let total = if is_trivial_piece(&cur) {
        count
    } else {
        count + 1
    };
    if total != 1 {
        return false;
    }
    if count == 1 {
        is_reserved(&first)
    } else {
        is_reserved(&cur)
    }
}

} // verus!
