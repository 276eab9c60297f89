//! Stripping SQL comments from raw query text.
//!
//! The scan is purely character based: `/* ... */` block comments are
//! removed (an unterminated block runs to the end of the input), and
//! `-- ...` line comments are removed up to, but not including, the
//! terminating newline, so that statement separation is preserved.

use vstd::prelude::*;
use crate::text::{chars_of, string_from_chars};

verus! {

/// The mode of the comment scan at a given position.
pub enum ScanMode {
    /// Ordinary SQL text.
    Code,
    /// Inside a `/* ... */` block comment.
    Block,
    /// Inside a `-- ...` line comment.
    Line,
}

/// What remains of `s[i..]` after comment stripping, scanning in mode `m`.
pub open spec fn strip_from(s: Seq<char>, i: int, m: ScanMode) -> Seq<char>
    decreases s.len() - i,
{
    if i < 0 || i >= s.len() {
        Seq::empty()
    } else {
        match m {
            ScanMode::Block => {
                if s[i] == '*' && i + 1 < s.len() && s[i + 1] == '/' {
                    strip_from(s, i + 2, ScanMode::Code)
                } else {
                    strip_from(s, i + 1, ScanMode::Block)
                }
            },
            ScanMode::Line => {
                if s[i] == '\n' {
                    seq!['\n'] + strip_from(s, i + 1, ScanMode::Code)
                } else {
                    strip_from(s, i + 1, ScanMode::Line)
                }
            },
            ScanMode::Code => {
                if s[i] == '/' && i + 1 < s.len() && s[i + 1] == '*' {
                    strip_from(s, i + 2, ScanMode::Block)
                } else if s[i] == '-' && i + 1 < s.len() && s[i + 1] == '-' {
                    strip_from(s, i + 2, ScanMode::Line)
                } else {
                    seq![s[i]] + strip_from(s, i + 1, ScanMode::Code)
                }
            },
        }
    }
}

/// The comment-free form of a whole SQL text.
pub open spec fn strip_comments(s: Seq<char>) -> Seq<char> {
    strip_from(s, 0, ScanMode::Code)
}

/// Owner of the query-execution stage; the comment scan is the part of it
/// that needs no database.
pub struct SqlExecutor {}

impl SqlExecutor {
    /// Remove `/* ... */` and `-- ...` comments from `sql`, preserving every
    /// other character, including the newline that ends a line comment.
    pub fn clean_sql(sql: &str) -> (r: String)
        ensures
            r@ == strip_comments(sql@),
    {
        let chars = chars_of(sql);
        let n = chars.len();
        let mut out: Vec<char> = Vec::new();
        let mut i: usize = 0;
        let mut mode = ScanMode::Code;
        while i < n
            invariant
                i <= n,
                n == chars@.len(),
                chars@ == sql@,
                out@ + strip_from(sql@, i as int, mode) == strip_comments(sql@),
            decreases n - i,
        {
            match mode {
                ScanMode::Block => {
                    if chars[i] == '*' && i + 1 < n && chars[i + 1] == '/' {
                        i = i + 2;
                        mode = ScanMode::Code;
                    } else {
                        i = i + 1;
                    }
                },
                ScanMode::Line => {
                    if chars[i] == '\n' {
                        out.push('\n');
                        proof {
                            assert(out@ + strip_from(sql@, i + 1 as int, ScanMode::Code)
                                =~= out@.drop_last() + (seq!['\n']
                                    + strip_from(sql@, i + 1 as int, ScanMode::Code)));
                        }
                        i = i + 1;
                        mode = ScanMode::Code;
                    } else {
                        i = i + 1;
                    }
                },
                ScanMode::Code => {
                    if chars[i] == '/' && i + 1 < n && chars[i + 1] == '*' {
                        i = i + 2;
                        mode = ScanMode::Block;
                    } else if chars[i] == '-' && i + 1 < n && chars[i + 1] == '-' {
                        i = i + 2;
                        mode = ScanMode::Line;
                    } else {
                        let c = chars[i];
                        out.push(c);
                        proof {
                            assert(out@ + strip_from(sql@, i + 1 as int, ScanMode::Code)
                                =~= out@.drop_last() + (seq![sql@[i as int]]
                                    + strip_from(sql@, i + 1 as int, ScanMode::Code)));
                        }
                        i = i + 1;
                    }
                },
            }
        }
        proof {
            assert(out@ + strip_from(sql@, n as int, mode) =~= out@);
        }
        string_from_chars(&out)
    }
}

/// A text that contains no comment opener: no `/*` and no `--` pair of
/// adjacent characters.
pub open spec fn comment_free(s: Seq<char>) -> bool {
    forall|i: int|
        0 <= i && i + 1 < s.len() ==> !((#[trigger] s[i]) == '/' && s[i + 1] == '*') && !(s[i]
            == '-' && s[i + 1] == '-')
}

/// Stripping changes nothing in a text without comment openers: every
/// character, newlines included, is preserved verbatim.
pub proof fn lemma_strip_comment_free(s: Seq<char>)
    requires
        comment_free(s),
    ensures
        strip_comments(s) == s,
{
    lemma_strip_comment_free_from(s, 0);
    assert(strip_from(s, 0, ScanMode::Code) =~= s);
}

proof fn lemma_strip_comment_free_from(s: Seq<char>, i: int)
    requires
        comment_free(s),
        0 <= i <= s.len(),
    ensures
        strip_from(s, i, ScanMode::Code) =~= s.skip(i),
    decreases s.len() - i,
{
    if i == s.len() {
        assert(strip_from(s, i, ScanMode::Code) =~= s.skip(i));
    } else {
        lemma_strip_comment_free_from(s, i + 1);
        assert(strip_from(s, i, ScanMode::Code) == seq![s[i]] + strip_from(
            s,
            i + 1,
            ScanMode::Code,
        ));
        assert(seq![s[i]] + s.skip(i + 1) =~= s.skip(i));
    }
}

/// An unterminated block comment consumes everything to the end of the
/// input: once the scan is inside a block with no closing `*/` ahead,
/// nothing more is emitted.
pub proof fn lemma_unterminated_block(s: Seq<char>, i: int)
    requires
        0 <= i <= s.len(),
        forall|j: int|
            i <= j && j + 1 < s.len() ==> !((#[trigger] s[j]) == '*' && s[j + 1] == '/'),
    ensures
        strip_from(s, i, ScanMode::Block) == Seq::<char>::empty(),
    decreases s.len() - i,
{
    if i < s.len() {
        lemma_unterminated_block(s, i + 1);
    }
}

/// A line comment is discarded exactly through its newline, and the
/// newline itself is kept: scanning in line mode up to the first newline
/// emits that newline and resumes ordinary scanning after it.
pub proof fn lemma_line_comment_ends_at_newline(s: Seq<char>, i: int, j: int)
    requires
        0 <= i <= j < s.len(),
        s[j] == '\n',
        forall|m: int| i <= m < j ==> (#[trigger] s[m]) != '\n',
    ensures
        strip_from(s, i, ScanMode::Line) == seq!['\n'] + strip_from(s, j + 1, ScanMode::Code),
    decreases j - i,
{
    if i < j {
        assert(s[i] != '\n');
        lemma_line_comment_ends_at_newline(s, i + 1, j);
    }
}

/// A block comment is discarded exactly through its terminator: scanning
/// in block mode up to the first `*/` emits nothing and resumes ordinary
/// scanning after the terminator.
pub proof fn lemma_block_comment_ends_at_terminator(s: Seq<char>, i: int, j: int)
    requires
        0 <= i <= j,
        j + 1 < s.len(),
        s[j] == '*',
        s[j + 1] == '/',
        forall|m: int| i <= m < j ==> !((#[trigger] s[m]) == '*' && s[m + 1] == '/'),
    ensures
        strip_from(s, i, ScanMode::Block) == strip_from(s, j + 2, ScanMode::Code),
    decreases j - i,
{
    if i < j {
        assert(!(s[i] == '*' && s[i + 1] == '/'));
        lemma_block_comment_ends_at_terminator(s, i + 1, j);
    }
}

/// A balanced block comment contributes nothing: at a `/*` in ordinary
/// text whose first terminator is the `*/` ending at `j + 1`, the scan's
/// output is exactly the output of scanning on after that terminator —
/// delimiters and inner text are all absent.
pub proof fn lemma_block_comment_removed(s: Seq<char>, i: int, j: int)
    requires
        0 <= i,
        i + 1 < s.len(),
        s[i] == '/',
        s[i + 1] == '*',
        i + 2 <= j,
        j + 1 < s.len(),
        s[j] == '*',
        s[j + 1] == '/',
        forall|m: int| i + 2 <= m < j ==> !((#[trigger] s[m]) == '*' && s[m + 1] == '/'),
    ensures
        strip_from(s, i, ScanMode::Code) == strip_from(s, j + 2, ScanMode::Code),
{
    lemma_block_comment_ends_at_terminator(s, i + 2, j);
}

/// A line comment is absent from the output up to its newline, which is
/// kept: at a `--` in ordinary text whose next newline stands at `j`, the
/// scan's output is that newline followed by the output of scanning on
/// after it.
pub proof fn lemma_line_comment_removed(s: Seq<char>, i: int, j: int)
    requires
        0 <= i,
        i + 1 < s.len(),
        s[i] == '-',
        s[i + 1] == '-',
        i + 2 <= j < s.len(),
        s[j] == '\n',
        forall|m: int| i + 2 <= m < j ==> (#[trigger] s[m]) != '\n',
    ensures
        strip_from(s, i, ScanMode::Code) == seq!['\n'] + strip_from(s, j + 1, ScanMode::Code),
{
    lemma_line_comment_ends_at_newline(s, i + 2, j);
}

/// A line comment with no newline after it consumes the rest of the
/// input: nothing more is emitted.
pub proof fn lemma_line_comment_to_end(s: Seq<char>, i: int)
    requires
        0 <= i <= s.len(),
        forall|m: int| i <= m < s.len() ==> (#[trigger] s[m]) != '\n',
    ensures
        strip_from(s, i, ScanMode::Line) == Seq::<char>::empty(),
    decreases s.len() - i,
{
    if i < s.len() {
        lemma_line_comment_to_end(s, i + 1);
    }
}

/// An unterminated block comment at a `/*` in ordinary text consumes
/// everything to the end of the input: the scan emits nothing more, and
/// no error arises.
pub proof fn lemma_unterminated_block_removed(s: Seq<char>, i: int)
    requires
        0 <= i,
        i + 1 < s.len(),
        s[i] == '/',
        s[i + 1] == '*',
        forall|m: int|
            i + 2 <= m && m + 1 < s.len() ==> !((#[trigger] s[m]) == '*' && s[m + 1] == '/'),
    ensures
        strip_from(s, i, ScanMode::Code) == Seq::<char>::empty(),
{
    lemma_unterminated_block(s, i + 2);
}

} // verus!
