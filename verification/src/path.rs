//! Directory paths as text, and how a declared source is joined to the
//! directory of the module that declares it.

use crate::text::push_char;
use vstd::prelude::*;

verus! {

/// A path is absolute where it starts at the root.
pub open spec fn is_absolute(path: Seq<char>) -> bool {
    path.len() > 0 && path[0] == '/'
}

/// What stands between the separators of a path, from left to right. A path
/// with n separators has n + 1 pieces, some of them empty.
pub open spec fn pieces(path: Seq<char>) -> Seq<Seq<char>>
    decreases path.len(),
{
    if path.len() == 0 {
        seq![Seq::empty()]
    } else {
        let before = pieces(path.drop_last());
        if path.last() == '/' {
            before.push(Seq::empty())
        } else {
            before.drop_last().push(before.last().push(path.last()))
        }
    }
}

/// A piece names something unless it is empty or the single dot that stands
/// for the directory it is found in.
pub open spec fn is_segment(piece: Seq<char>) -> bool {
    piece.len() > 0 && piece != seq!['.']
}

/// The segments among the pieces, in order, with one separator between
/// neighbours.
pub open spec fn glued(pieces: Seq<Seq<char>>) -> Seq<char>
    decreases pieces.len(),
{
    if pieces.len() == 0 {
        Seq::empty()
    } else {
        let before = glued(pieces.drop_last());
        let piece = pieces.last();
        if !is_segment(piece) {
            before
        } else if before.len() == 0 {
            piece
        } else {
            before + seq!['/'] + piece
        }
    }
}

/// The root of an absolute path, nothing for a relative one.
pub open spec fn root(path: Seq<char>) -> Seq<char> {
    if is_absolute(path) {
        seq!['/']
    } else {
        Seq::empty()
    }
}

/// A path without its empty and single-dot pieces: repeated and trailing
/// separators go, `..` stays.
pub open spec fn cleaned(path: Seq<char>) -> Seq<char> {
    root(path) + glued(pieces(path))
}

/// The directory that `source` names when it is declared in `parent`: an
/// absolute source stands for itself, and so does any source where the parent
/// is empty; a relative one is appended to the parent.
pub open spec fn joined(parent: Seq<char>, source: Seq<char>) -> Seq<char> {
    if is_absolute(source) || parent.len() == 0 {
        cleaned(source)
    } else {
        cleaned(parent + seq!['/'] + source)
    }
}

pub proof fn lemma_pieces_nonempty(path: Seq<char>)
    ensures
        pieces(path).len() >= 1,
    decreases path.len(),
{
    if path.len() > 0 {
        lemma_pieces_nonempty(path.drop_last());
    }
}

/// Appends `piece` to `text` where it is a segment, behind a separator where
/// `text` holds a segment already.
fn flush(
    text: &mut String,
    any: &mut bool,
    piece: &String,
    empty: bool,
    dot: bool,
    Ghost(lead): Ghost<Seq<char>>,
    Ghost(done): Ghost<Seq<Seq<char>>>,
)
    requires
        old(text)@ == lead + glued(done),
        *old(any) == (glued(done).len() > 0),
        empty == (piece@.len() == 0),
        dot == (piece@ == seq!['.']),
    ensures
        final(text)@ == lead + glued(done.push(piece@)),
        *final(any) == (glued(done.push(piece@)).len() > 0),
{
    assert(done.push(piece@).drop_last() == done);
    if !empty && !dot {
        if *any {
            push_char(text, '/');
        }
        text.append(piece.as_str());
        *any = true;
    }
}

/// The path without its empty and single-dot pieces.
pub fn clean(path: &str) -> (text: String)
    ensures
        text@ == cleaned(path@),
{
    let mut text = String::new();
    let mut piece = String::new();
    let mut any = false;
    let mut empty = true;
    let mut dot = false;
    let mut first = true;
    proof {
    }
    for c in it: path.chars()
        invariant
            it.seq() == path@,
            first == (it.index() == 0),
            text@ == root(path@.take(it.index() as int)) + glued(
                pieces(path@.take(it.index() as int)).drop_last(),
            ),
            piece@ == pieces(path@.take(it.index() as int)).last(),
            any == (glued(pieces(path@.take(it.index() as int)).drop_last()).len() > 0),
            empty == (piece@.len() == 0),
            dot == (piece@ == seq!['.']),
    {
        let ghost seen = path@.take(it.index() as int);
        let ghost next = path@.take(it.index() + 1);
        proof {
            lemma_pieces_nonempty(seen);
            assert(next.drop_last() == seen);
        }
        if c == '/' {
            if first {
                push_char(&mut text, '/');
            }
            flush(
                &mut text,
                &mut any,
                &piece,
                empty,
                dot,
                Ghost(root(next)),
                Ghost(pieces(seen).drop_last()),
            );
            assert(pieces(seen).drop_last().push(piece@) == pieces(seen));
            assert(pieces(next).drop_last() == pieces(seen));
            piece = String::new();
            empty = true;
            dot = false;
        } else {
            dot = empty && c == '.';
            push_char(&mut piece, c);
            empty = false;
            assert(dot == (piece@ == seq!['.'])) by {
                if dot {
                } else {
                    assert(seq!['.'].len() == 1 && seq!['.'][0] == '.');
                }
            }
            assert(pieces(next).drop_last() == pieces(seen).drop_last());
        }
        first = false;
    }
    proof {
        assert(path@.take(path@.len() as int) == path@);
        lemma_pieces_nonempty(path@);
    }
    flush(
        &mut text,
        &mut any,
        &piece,
        empty,
        dot,
        Ghost(root(path@)),
        Ghost(pieces(path@).drop_last()),
    );
    assert(pieces(path@).drop_last().push(piece@) == pieces(path@));
    text
}

/// The directory that `source` names when it is declared in `parent`.
pub fn join(parent: &str, source: &str) -> (dir: String)
    ensures
        dir@ == joined(parent@, source@),
{
    if parent.is_empty() || (!source.is_empty() && source.get_char(0) == '/') {
        clean(source)
    } else {
        let mut whole = parent.to_owned();
        push_char(&mut whole, '/');
        whole.append(source);
        assert(whole@ =~= parent@ + seq!['/'] + source@);
        clean(whole.as_str())
    }
}

} // verus!
