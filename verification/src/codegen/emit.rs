//! Mechanical helpers of the Ruby emitter: escaping for Ruby
//! double-quoted literals, an indentation-aware line buffer, and
//! identifiers.
use vstd::prelude::*;

use vstd::string::StrSliceExecFns;

verus! {

/// What one character becomes inside a Ruby double-quoted literal:
/// backslash, double quote, newline, carriage return, tab and `#` are
/// escaped; every other character stands for itself.
pub open spec fn ruby_escape_char(c: char) -> Seq<char> {
    if c == '\\' {
        seq!['\\', '\\']
    } else if c == '"' {
        seq!['\\', '"']
    } else if c == '\n' {
        seq!['\\', 'n']
    } else if c == '\r' {
        seq!['\\', 'r']
    } else if c == '\t' {
        seq!['\\', 't']
    } else if c == '#' {
        seq!['\\', '#']
    } else {
        seq![c]
    }
}

/// A text escaped character by character.
pub open spec fn ruby_escape(s: Seq<char>) -> Seq<char>
    decreases s.len(),
{
    if s.len() == 0 {
        Seq::empty()
    } else {
        ruby_escape(s.drop_last()) + ruby_escape_char(s.last())
    }
}

/// Escape a decoded string for a Ruby double-quoted literal, so that
/// the literal reads back as the original text.
pub fn escape_ruby_string(s: &str) -> (r: String)
    ensures
        r@ == ruby_escape(s@),
{
    let mut out = String::new();
    let n = s.unicode_len();
    let mut i: usize = 0;
    while i < n
        invariant
            i <= n,
            n == s@.len(),
            out@ == ruby_escape(s@.take(i as int)),
        decreases n - i,
    {
        let ch = s.get_char(i);
        let ghost o0 = out@;
        if ch == '\\' {
            out.append("\\\\");
        } else if ch == '"' {
            out.append("\\\"");
        } else if ch == '\n' {
            out.append("\\n");
        } else if ch == '\r' {
            out.append("\\r");
        } else if ch == '\t' {
            out.append("\\t");
        } else if ch == '#' {
            out.append("\\#");
        } else {
            out.push(ch);
        }
        proof {
            reveal_strlit("\\\\");
            reveal_strlit("\\\"");
            reveal_strlit("\\n");
            reveal_strlit("\\r");
            reveal_strlit("\\t");
            reveal_strlit("\\#");
            assert(s@.take(i + 1).drop_last() =~= s@.take(i as int));
            assert(s@.take(i + 1).last() == ch);
            assert(out@ =~= o0 + ruby_escape_char(ch));
        }
        i = i + 1;
    }
    assert(s@.take(n as int) =~= s@);
    out
}

/// `n` copies of two spaces.
pub open spec fn indentation(n: nat) -> Seq<char>
    decreases n,
{
    if n == 0 {
        Seq::empty()
    } else {
        indentation((n - 1) as nat) + seq![' ', ' ']
    }
}

/// A text buffer of lines, each prefixed with two spaces per open
/// indentation level.
#[derive(Debug)]
pub struct Buf {
    buf: String,
    indent: usize,
}

impl Buf {
    /// The text written so far.
    pub closed spec fn text(&self) -> Seq<char> {
        self.buf@
    }

    /// The current indentation level.
    pub closed spec fn level(&self) -> nat {
        self.indent as nat
    }

    /// An empty buffer at level zero.
    pub fn new() -> (r: Buf)
        ensures
            r.text() == Seq::<char>::empty(),
            r.level() == 0,
    {
        Buf { buf: String::new(), indent: 0 }
    }

    /// Append `line` and a newline, indented to the current level.
    pub fn push_line(&mut self, line: &str)
        ensures
            final(self).text() == old(self).text() + indentation(old(self).level()) + line@ + seq!['\n'],
            final(self).level() == old(self).level(),
    {
        let mut k: usize = 0;
        while k < self.indent
            invariant
                k <= self.indent,
                self.indent == old(self).indent,
                self.buf@ == old(self).buf@ + indentation(k as nat),
            decreases self.indent - k,
        {
            self.buf.append("  ");
            proof {
                reveal_strlit("  ");
                assert(indentation((k + 1) as nat) == indentation(k as nat) + seq![' ', ' ']);
                assert(self.buf@ =~= old(self).buf@ + indentation((k + 1) as nat));
            }
            k = k + 1;
        }
        self.buf.append(line);
        self.buf.push('\n');
    }

    /// Append an empty line, with no indentation.
    pub fn blank(&mut self)
        ensures
            final(self).text() == old(self).text() + seq!['\n'],
            final(self).level() == old(self).level(),
    {
        self.buf.push('\n');
    }

    /// Open one more indentation level.
    pub fn indent(&mut self)
        requires
            old(self).level() < usize::MAX,
        ensures
            final(self).text() == old(self).text(),
            final(self).level() == old(self).level() + 1,
    {
        self.indent = self.indent + 1;
    }

    /// Close one indentation level; at level zero the level stays zero.
    pub fn dedent(&mut self)
        ensures
            final(self).text() == old(self).text(),
            final(self).level() == if old(self).level() > 0 {
                (old(self).level() - 1) as nat
            } else {
                0
            },
    {
        self.indent = self.indent.saturating_sub(1);
    }

    /// The text written.
    pub fn into_string(self) -> (r: String)
        ensures
            r@ == self.text(),
    {
        self.buf
    }
}

/// The Ruby identifier of a value binding: its name as written.
pub fn value_ident(name: &str) -> (r: String)
    ensures
        r@ == name@,
{
    String::from_str(name)
}

} // verus!
