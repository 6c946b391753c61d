//! Writing the blank lines and line comments that sit between syntax nodes
//! into an arena string.

use vstd::prelude::*;
use bumpalo::collections::String as BumpString;
use crate::bump::{buf_push, buf_push_str, buf_text};

verus! {

/// The number of spaces to indent.
pub const INDENT: u16 = 4;

/// One item of the whitespace between two syntax nodes.
#[derive(Clone, Copy, Debug)]
pub enum CommentOrNewline<'a> {
    Newline,
    LineComment(&'a str),
}

/// A line break followed by `indent` spaces.
pub open spec fn newline_text(indent: u16) -> Seq<char> {
    seq!['\n'] + Seq::new(indent as nat, |i: int| ' ')
}

/// A comment as it is written out: the hash sign, the comment's own text,
/// then a line break and the indentation of the line after it.
pub open spec fn comment_text(comment: Seq<char>, indent: u16) -> Seq<char> {
    seq!['#'] + comment + newline_text(indent)
}

/// Whether the line break at position `i` is written by [`fmt_spaces`]: only
/// the first two items can be, and only while no comment has come before.
pub open spec fn newline_kept(spaces: Seq<CommentOrNewline<'_>>, i: int) -> bool {
    i < 2 && forall|j: int| 0 <= j < i ==> spaces[j] is Newline
}

/// What [`fmt_spaces`] writes for the item at position `i`.
pub open spec fn space_text(spaces: Seq<CommentOrNewline<'_>>, i: int, indent: u16) -> Seq<char> {
    match spaces[i] {
        CommentOrNewline::Newline => if newline_kept(spaces, i) {
            if i + 1 < spaces.len() && spaces[i + 1] is Newline {
                seq!['\n']
            } else {
                newline_text(indent)
            }
        } else {
            Seq::empty()
        },
        CommentOrNewline::LineComment(comment) => comment_text(comment@, indent),
    }
}

/// What [`fmt_spaces`] writes for the first `n` items.
pub open spec fn spaces_text(spaces: Seq<CommentOrNewline<'_>>, indent: u16, n: int) -> Seq<char>
    decreases n,
{
    if n <= 0 {
        Seq::empty()
    } else {
        spaces_text(spaces, indent, n - 1) + space_text(spaces, n - 1, indent)
    }
}

/// What [`fmt_condition_spaces`] writes for the item at position `i`: a
/// comment without its line break, and a line break only where the next
/// item is a comment too.
pub open spec fn condition_space_text(
    spaces: Seq<CommentOrNewline<'_>>,
    i: int,
    indent: u16,
) -> Seq<char> {
    let own = match spaces[i] {
        CommentOrNewline::Newline => Seq::empty(),
        CommentOrNewline::LineComment(comment) => seq!['#'] + comment@,
    };
    if i + 1 < spaces.len() && spaces[i + 1] is LineComment {
        own + newline_text(indent)
    } else {
        own
    }
}

/// What [`fmt_condition_spaces`] writes for the first `n` items.
pub open spec fn condition_spaces_text(
    spaces: Seq<CommentOrNewline<'_>>,
    indent: u16,
    n: int,
) -> Seq<char>
    decreases n,
{
    if n <= 0 {
        Seq::empty()
    } else {
        condition_spaces_text(spaces, indent, n - 1) + condition_space_text(spaces, n - 1, indent)
    }
}

/// What [`fmt_comments_only`] writes for the first `n` items: every comment,
/// no line break of the input.
pub open spec fn comments_only_text(
    spaces: Seq<CommentOrNewline<'_>>,
    indent: u16,
    n: int,
) -> Seq<char>
    decreases n,
{
    if n <= 0 {
        Seq::empty()
    } else {
        comments_only_text(spaces, indent, n - 1) + match spaces[n - 1] {
            CommentOrNewline::Newline => Seq::empty(),
            CommentOrNewline::LineComment(comment) => comment_text(comment@, indent),
        }
    }
}

/// Writes a line break and the indentation of the line that follows.
pub fn newline<'a>(buf: &mut BumpString<'a>, indent: u16)
    ensures
        buf_text(final(buf)) == buf_text(old(buf)) + newline_text(indent),
{
    buf_push(buf, '\n');
    add_spaces(buf, indent);
    assert(buf_text(buf) =~= buf_text(old(buf)) + newline_text(indent));
}

/// Writes that many spaces.
pub fn add_spaces<'a>(buf: &mut BumpString<'a>, spaces: u16)
    ensures
        buf_text(final(buf)) == buf_text(old(buf)) + Seq::new(spaces as nat, |i: int| ' '),
{
    let mut written: u16 = 0;
    while written < spaces
        invariant
            written <= spaces,
            buf_text(buf) == buf_text(old(buf)) + Seq::new(written as nat, |i: int| ' '),
        decreases spaces - written,
    {
        buf_push(buf, ' ');
        written = written + 1;
        assert(buf_text(buf) =~= buf_text(old(buf)) + Seq::new(written as nat, |i: int| ' '));
    }
}

/// Writes blank lines and comments. At most two line breaks are written, and
/// none once a comment was seen; a line break directly before another line
/// break is written without indentation.
pub fn fmt_spaces<'a>(buf: &mut BumpString<'a>, spaces: &[CommentOrNewline<'a>], indent: u16)
    ensures
        buf_text(final(buf)) == buf_text(old(buf)) + spaces_text(
            spaces@,
            indent,
            spaces@.len() as int,
        ),
{
    // Only ever print two newlines back to back.
    // (Two newlines renders as one blank line.)
    let mut consecutive_newlines: u8 = 0;
    let mut encountered_comment = false;
    let mut i: usize = 0;
    while i < spaces.len()
        invariant
            i <= spaces@.len(),
            consecutive_newlines <= 2,
            encountered_comment <==> exists|j: int| 0 <= j < i && spaces@[j] is LineComment,
            !encountered_comment ==> consecutive_newlines == if i < 2 {
                i as int
            } else {
                2
            },
            buf_text(buf) == buf_text(old(buf)) + spaces_text(spaces@, indent, i as int),
        decreases spaces@.len() - i,
    {
        let ghost before = buf_text(buf);
        match spaces[i] {
            CommentOrNewline::Newline => {
                if !encountered_comment && (consecutive_newlines < 2) {
                    assert(newline_kept(spaces@, i as int));
                    if i + 1 < spaces.len() && is_newline(&spaces[i + 1]) {
                        buf_push(buf, '\n');
                        assert(buf_text(buf) =~= before + seq!['\n']);
                    } else {
                        newline(buf, indent);
                    }
                    // Don't bother incrementing it if we're already over the limit.
                    consecutive_newlines += 1;
                } else {
                    assert(!newline_kept(spaces@, i as int));
                    assert(buf_text(buf) =~= before + Seq::<char>::empty());
                }
            },
            CommentOrNewline::LineComment(comment) => {
                fmt_comment(buf, comment, indent);
                encountered_comment = true;
            },
        }
        assert(buf_text(buf) == before + space_text(spaces@, i as int, indent));
        assert(buf_text(buf) =~= buf_text(old(buf)) + spaces_text(spaces@, indent, i + 1));
        i += 1;
    }
}

/// Similar to fmt_comments_only, but does not finish with a newline()
/// Used to format when and if statement conditions
pub fn fmt_condition_spaces<'a>(
    buf: &mut BumpString<'a>,
    spaces: &[CommentOrNewline<'a>],
    indent: u16,
)
    ensures
        buf_text(final(buf)) == buf_text(old(buf)) + condition_spaces_text(
            spaces@,
            indent,
            spaces@.len() as int,
        ),
{
    let mut i: usize = 0;
    while i < spaces.len()
        invariant
            i <= spaces@.len(),
            buf_text(buf) == buf_text(old(buf)) + condition_spaces_text(spaces@, indent, i as int),
        decreases spaces@.len() - i,
    {
        let ghost before = buf_text(buf);
        match spaces[i] {
            CommentOrNewline::Newline => {},
            CommentOrNewline::LineComment(comment) => {
                buf_push(buf, '#');
                buf_push_str(buf, comment);
            },
        }
        if i + 1 < spaces.len() && is_comment(&spaces[i + 1]) {
            newline(buf, indent);
        }
        assert(buf_text(buf) =~= before + condition_space_text(spaces@, i as int, indent));
        assert(buf_text(buf) =~= buf_text(old(buf)) + condition_spaces_text(
            spaces@,
            indent,
            i + 1,
        ));
        i += 1;
    }
}

/// Like format_spaces, but remove newlines and keep only comments.
pub fn fmt_comments_only<'a>(
    buf: &mut BumpString<'a>,
    spaces: &[CommentOrNewline<'a>],
    indent: u16,
)
    ensures
        buf_text(final(buf)) == buf_text(old(buf)) + comments_only_text(
            spaces@,
            indent,
            spaces@.len() as int,
        ),
{
    let mut i: usize = 0;
    while i < spaces.len()
        invariant
            i <= spaces@.len(),
            buf_text(buf) == buf_text(old(buf)) + comments_only_text(spaces@, indent, i as int),
        decreases spaces@.len() - i,
    {
        let ghost before = buf_text(buf);
        match spaces[i] {
            CommentOrNewline::Newline => {
                assert(buf_text(buf) =~= before + Seq::<char>::empty());
            },
            CommentOrNewline::LineComment(comment) => {
                fmt_comment(buf, comment, indent);
            },
        }
        assert(buf_text(buf) =~= buf_text(old(buf)) + comments_only_text(spaces@, indent, i + 1));
        i += 1;
    }
}

fn fmt_comment<'a>(buf: &mut BumpString<'a>, comment: &'a str, indent: u16)
    ensures
        buf_text(final(buf)) == buf_text(old(buf)) + comment_text(comment@, indent),
{
    buf_push(buf, '#');
    buf_push_str(buf, comment);
    newline(buf, indent);
    assert(buf_text(buf) =~= buf_text(old(buf)) + comment_text(comment@, indent));
}

fn is_newline<'a>(space: &'a CommentOrNewline<'a>) -> (r: bool)
    ensures
        r == (*space is Newline),
{
    match space {
        CommentOrNewline::Newline => true,
        CommentOrNewline::LineComment(_) => false,
    }
}

/// Whether the item is a comment.
pub fn is_comment<'a>(space: &'a CommentOrNewline<'a>) -> (r: bool)
    ensures
        r == (*space is LineComment),
{
    match space {
        CommentOrNewline::Newline => false,
        CommentOrNewline::LineComment(_) => true,
    }
}

} // verus!
