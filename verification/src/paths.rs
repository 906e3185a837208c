//! Paths and their segments.
//!
//! A path is written as segments separated by `/`. Empty pieces (from
//! doubled or trailing slashes) and bare `.` pieces resolve to the current
//! directory and are dropped during splitting, so only real names and `..`
//! remain. Resolution always starts at the root, so absolute and relative
//! spellings with the same segments address the same node.

use vstd::prelude::*;
use vstd::string::StrSliceExecFns;
use vstd::string::StringExecFns;

verus! {

/// The one-character name that a directory binds to itself.
pub open spec fn dot() -> Seq<char> {
    seq!['.']
}

/// The two-character name that a directory binds to its parent.
pub open spec fn dotdot() -> Seq<char> {
    seq!['.', '.']
}

/// Whether a raw piece between slashes survives as a segment.
pub open spec fn keep_piece(p: Seq<char>) -> bool {
    p.len() > 0 && p != dot()
}

/// The splitting state after reading `s`: the finished segments, and the
/// piece currently being read.
pub open spec fn split_state(s: Seq<char>) -> (Seq<Seq<char>>, Seq<char>)
    decreases s.len(),
{
    if s.len() == 0 {
        (Seq::empty(), Seq::empty())
    } else {
        let prev = split_state(s.drop_last());
        if s.last() == '/' {
            if keep_piece(prev.1) {
                (prev.0.push(prev.1), Seq::empty())
            } else {
                (prev.0, Seq::empty())
            }
        } else {
            (prev.0, prev.1.push(s.last()))
        }
    }
}

/// The segments of a path.
pub open spec fn path_segments(s: Seq<char>) -> Seq<Seq<char>> {
    let st = split_state(s);
    if keep_piece(st.1) {
        st.0.push(st.1)
    } else {
        st.0
    }
}

/// Every finished segment of the splitting state is a kept piece.
proof fn lemma_split_state_kept(s: Seq<char>)
    ensures
        forall|i: int|
            0 <= i < split_state(s).0.len() ==> keep_piece(#[trigger] split_state(s).0[i]),
    decreases s.len(),
{
    if s.len() > 0 {
        lemma_split_state_kept(s.drop_last());
        let prev = split_state(s.drop_last());
        if s.last() == '/' && keep_piece(prev.1) {
            assert forall|i: int| 0 <= i < split_state(s).0.len() implies keep_piece(
                #[trigger] split_state(s).0[i],
            ) by {
                if i < prev.0.len() {
                    assert(split_state(s).0[i] == prev.0[i]);
                }
            }
        }
    }
}

/// Every segment of a path is a kept piece: non-empty and not `.`.
pub proof fn lemma_segments_kept(s: Seq<char>)
    ensures
        forall|i: int|
            0 <= i < path_segments(s).len() ==> keep_piece(#[trigger] path_segments(s)[i]),
{
    lemma_split_state_kept(s);
    let st = split_state(s);
    if keep_piece(st.1) {
        assert forall|i: int| 0 <= i < path_segments(s).len() implies keep_piece(
            #[trigger] path_segments(s)[i],
        ) by {
            if i < st.0.len() {
                assert(path_segments(s)[i] == st.0[i]);
            }
        }
    }
}

/// The views of a list of owned segments.
pub open spec fn seg_views(v: Seq<String>) -> Seq<Seq<char>> {
    Seq::new(v.len(), |i: int| v[i]@)
}

/// Splits a path into its segments.
pub fn split_path(path: &str) -> (r: Vec<String>)
    ensures
        seg_views(r@) == path_segments(path@),
{
    let n = path.unicode_len();
    let mut out: Vec<String> = Vec::new();
    let mut start: usize = 0;
    let mut i: usize = 0;
    while i < n
        invariant
            n == path@.len(),
            0 <= start <= i <= n,
            split_state(path@.take(i as int)).0 == seg_views(out@),
            split_state(path@.take(i as int)).1 == path@.subrange(start as int, i as int),
        decreases n - i,
    {
        let c = path.get_char(i);
        proof {
            assert(path@.take(i + 1 as int).drop_last() =~= path@.take(i as int));
            assert(path@.take(i + 1 as int).last() == path@[i as int]);
        }
        if c == '/' {
            if i > start && !(i - start == 1 && path.get_char(start) == '.') {
                let piece = path.substring_char(start, i).to_owned();
                proof {
                    let pv = path@.subrange(start as int, i as int);
                    if pv.len() == 1 {
                        assert(dot().len() == 1);
                        assert(dot()[0] == '.');
                        assert(pv[0] == path@[start as int]);
                        assert(pv != dot());
                    }
                    assert(keep_piece(pv));
                }
                out.push(piece);
                proof {
                    assert(seg_views(out@) =~= split_state(path@.take(i + 1 as int)).0);
                }
            } else {
                proof {
                    let pv = path@.subrange(start as int, i as int);
                    if pv.len() == 1 && pv[0] == '.' {
                        assert(pv =~= dot());
                    }
                    assert(!keep_piece(pv));
                }
            }
            start = i + 1;
            proof {
                assert(split_state(path@.take(i + 1 as int)).1 =~= path@.subrange(
                    start as int,
                    i + 1 as int,
                ));
            }
        } else {
            proof {
                assert(split_state(path@.take(i + 1 as int)).1 =~= path@.subrange(
                    start as int,
                    i + 1 as int,
                ));
            }
        }
        i = i + 1;
    }
    proof {
        assert(path@.take(n as int) =~= path@);
    }
    if i > start && !(i - start == 1 && path.get_char(start) == '.') {
        let piece = path.substring_char(start, i).to_owned();
        proof {
            let pv = path@.subrange(start as int, i as int);
            if pv.len() == 1 {
                assert(dot().len() == 1);
                assert(dot()[0] == '.');
                assert(pv[0] == path@[start as int]);
                assert(pv != dot());
            }
            assert(keep_piece(pv));
        }
        out.push(piece);
        proof {
            assert(seg_views(out@) =~= path_segments(path@));
        }
    } else {
        proof {
            let pv = path@.subrange(start as int, i as int);
            if pv.len() == 1 && pv[0] == '.' {
                assert(pv =~= dot());
            }
            assert(!keep_piece(pv));
            assert(seg_views(out@) =~= path_segments(path@));
        }
    }
    out
}

/// Whether a segment is the self name `.`.
pub fn is_dot(seg: &str) -> (r: bool)
    ensures
        r == (seg@ == dot()),
{
    let n = seg.unicode_len();
    if n == 1 && seg.get_char(0) == '.' {
        proof {
            assert(seg@ =~= dot());
        }
        true
    } else {
        proof {
            if seg@ == dot() {
                assert(seg@.len() == 1);
                assert(seg@[0] == '.');
            }
        }
        false
    }
}

/// Whether a segment is the parent name `..`.
pub fn is_dotdot(seg: &str) -> (r: bool)
    ensures
        r == (seg@ == dotdot()),
{
    let n = seg.unicode_len();
    if n == 2 && seg.get_char(0) == '.' && seg.get_char(1) == '.' {
        proof {
            assert(seg@ =~= dotdot());
        }
        true
    } else {
        proof {
            if seg@ == dotdot() {
                assert(seg@.len() == 2);
                assert(seg@[0] == '.' && seg@[1] == '.');
            }
        }
        false
    }
}

} // verus!
