//! Typed views of the extension area's text fields: the three 41-byte
//! ASCII fields (author name, job name, software ID) and the four-line
//! author-comment block.
use vstd::prelude::*;
use vstd::utf8::encode_utf8;

verus! {

/// Payload capacity (characters) of a 41-byte ASCII field.
pub const TGA_ASCII_FIELD_MAX_CHARS: usize = 40;

/// On-disk width (bytes, NUL included) of one author-comment line.
pub const TGA_AUTHOR_COMMENT_LINE_BYTES: usize = 81;

/// Payload capacity (characters) of one author-comment line.
pub const TGA_AUTHOR_COMMENT_LINE_MAX_CHARS: usize = 80;

/// Number of author-comment lines.
pub const TGA_AUTHOR_COMMENT_LINES: usize = 4;

/// The UTF-8 bytes of a string.
pub open spec fn str_bytes(s: String) -> Seq<u8> {
    encode_utf8(s@)
}

/// `true` when every byte is NUL or an ASCII space (vacuously for "").
pub open spec fn blank_bytes(b: Seq<u8>) -> bool {
    forall|i: int| 0 <= i < b.len() ==> #[trigger] b[i] == 0 || b[i] == 32
}

/// `true` when every byte is printable ASCII (`0x20..=0x7E`).
pub open spec fn printable_bytes(b: Seq<u8>) -> bool {
    forall|i: int| 0 <= i < b.len() ==> 0x20 <= #[trigger] b[i] <= 0x7E
}

/// The characters `str::trim_ascii` treats as whitespace.
pub open spec fn is_ascii_ws(c: char) -> bool {
    c == ' ' || c == '\t' || c == '\n' || c == '\x0C' || c == '\r'
}

/// `s` without its leading ASCII whitespace.
pub open spec fn trim_start_ws(s: Seq<char>) -> Seq<char>
    decreases s.len(),
{
    if s.len() > 0 && is_ascii_ws(s[0]) {
        trim_start_ws(s.drop_first())
    } else {
        s
    }
}

/// `s` without its trailing ASCII whitespace.
pub open spec fn trim_end_ws(s: Seq<char>) -> Seq<char>
    decreases s.len(),
{
    if s.len() > 0 && is_ascii_ws(s.last()) {
        trim_end_ws(s.drop_last())
    } else {
        s
    }
}

/// `s` with leading and trailing ASCII whitespace removed.
pub open spec fn ascii_trimmed(s: Seq<char>) -> Seq<char> {
    trim_end_ws(trim_start_ws(s))
}

/// `true` for the ASCII whitespace characters of [`is_ascii_ws`].
fn char_is_ascii_ws(c: char) -> (r: bool)
    ensures
        r == is_ascii_ws(c),
{
    c == ' ' || c == '\t' || c == '\n' || c == '\x0C' || c == '\r'
}

/// The sub-slice of `s` with leading and trailing ASCII whitespace (space,
/// tab, LF, FF, CR) removed.
fn trim_ascii_str(s: &str) -> (r: &str)
    ensures
        r@ == ascii_trimmed(s@),
{
    let n = s.unicode_len();
    let mut a: usize = 0;
    assert(s@.subrange(0, n as int) =~= s@);
    loop
        invariant
            n == s@.len(),
            a <= n,
            trim_start_ws(s@) == trim_start_ws(s@.subrange(a as int, n as int)),
        ensures
            a <= n,
            trim_start_ws(s@) == s@.subrange(a as int, n as int),
        decreases n - a,
    {
        if a == n {
            assert(s@.subrange(a as int, n as int) =~= Seq::<char>::empty());
            break;
        }
        let c = s.get_char(a);
        if !char_is_ascii_ws(c) {
            break;
        }
        assert(s@.subrange(a as int, n as int).drop_first() =~= s@.subrange(a + 1, n as int));
        a = a + 1;
    }
    let mut b: usize = n;
    loop
        invariant
            n == s@.len(),
            a <= b <= n,
            trim_end_ws(s@.subrange(a as int, n as int)) == trim_end_ws(s@.subrange(a as int, b as int)),
        ensures
            a <= b <= n,
            trim_end_ws(s@.subrange(a as int, n as int)) == s@.subrange(a as int, b as int),
        decreases b - a,
    {
        if b == a {
            assert(s@.subrange(a as int, b as int) =~= Seq::<char>::empty());
            break;
        }
        let c = s.get_char(b - 1);
        if !char_is_ascii_ws(c) {
            break;
        }
        assert(s@.subrange(a as int, b as int).drop_last() =~= s@.subrange(a as int, b - 1));
        b = b - 1;
    }
    s.substring_char(a, b)
}

/// `true` when every byte of `b` is NUL or a space.
fn bytes_blank(b: &[u8]) -> (r: bool)
    ensures
        r == blank_bytes(b@),
{
    let mut i: usize = 0;
    while i < b.len()
        invariant
            i <= b.len(),
            forall|j: int| 0 <= j < i ==> #[trigger] b@[j] == 0 || b@[j] == 32,
        decreases b.len() - i,
    {
        if b[i] != 0 && b[i] != 32 {
            return false;
        }
        i = i + 1;
    }
    true
}

/// `true` when every byte of `b` is printable ASCII.
fn bytes_printable(b: &[u8]) -> (r: bool)
    ensures
        r == printable_bytes(b@),
{
    let mut i: usize = 0;
    while i < b.len()
        invariant
            i <= b.len(),
            forall|j: int| 0 <= j < i ==> 0x20 <= #[trigger] b@[j] <= 0x7E,
        decreases b.len() - i,
    {
        if b[i] < 0x20 || b[i] > 0x7E {
            return false;
        }
        i = i + 1;
    }
    true
}

/// One of the extension area's 41-byte ASCII fields, as its payload string.
#[derive(Debug, Clone, PartialEq, Eq, Default)]
pub struct TgaAsciiField {
    /// Payload (NUL-stripped on read; truncated to 40 bytes on write).
    pub value: String,
}

impl TgaAsciiField {
    /// Wrap a payload.
    pub fn new(value: String) -> (r: Self)
        ensures
            r.value == value,
    {
        TgaAsciiField { value }
    }

    /// Wrap a copy of a borrowed payload.
    pub fn from_borrowed(s: &str) -> (r: Self)
        ensures
            r.value@ == s@,
    {
        TgaAsciiField { value: s.to_owned() }
    }

    /// Unwrap the payload.
    pub fn into_inner(self) -> (r: String)
        ensures
            r == self.value,
    {
        self.value
    }

    /// Borrow the payload.
    pub fn as_str(&self) -> (r: &str)
        ensures
            r@ == self.value@,
    {
        self.value.as_str()
    }

    /// `true` when the payload is empty or all NULs / spaces.
    pub fn is_unset(&self) -> (r: bool)
        ensures
            r == blank_bytes(str_bytes(self.value)),
    {
        bytes_blank(self.value.as_str().as_bytes())
    }

    /// `true` when every byte is printable ASCII (`0x20..=0x7E`).
    pub fn is_valid_ascii(&self) -> (r: bool)
        ensures
            r == printable_bytes(str_bytes(self.value)),
    {
        bytes_printable(self.value.as_str().as_bytes())
    }

    /// Payload length in bytes.
    pub fn char_len(&self) -> (r: usize)
        ensures
            r == str_bytes(self.value).len(),
    {
        self.value.as_str().as_bytes().len()
    }

    /// `true` when the payload fits the 40-byte slot.
    pub fn fits_capacity(&self) -> (r: bool)
        ensures
            r == (str_bytes(self.value).len() <= 40),
    {
        self.value.as_str().as_bytes().len() <= TGA_ASCII_FIELD_MAX_CHARS
    }

    /// The payload with leading and trailing ASCII whitespace removed.
    pub fn trimmed(&self) -> (r: &str)
        ensures
            r@ == ascii_trimmed(self.value@),
    {
        trim_ascii_str(self.value.as_str())
    }
}

/// The four-line author-comment block.
#[derive(Debug, Clone, PartialEq, Eq, Default)]
pub struct TgaAuthorComments {
    /// The four comment lines.
    pub lines: [String; 4],
}

/// `true` when a comment line is empty or all NULs / spaces.
pub open spec fn line_blank(s: String) -> bool {
    blank_bytes(str_bytes(s))
}

/// One past the last non-blank line among the first `n` of `lines`.
pub open spec fn content_end(lines: Seq<String>, n: int) -> int
    decreases n,
{
    if n <= 0 {
        0
    } else if line_blank(lines[n - 1]) {
        content_end(lines, n - 1)
    } else {
        n
    }
}

/// The first `n` lines joined with `'\n'`.
pub open spec fn join_lines(lines: Seq<String>, n: int) -> Seq<char>
    decreases n,
{
    if n <= 0 {
        Seq::empty()
    } else if n == 1 {
        lines[0]@
    } else {
        join_lines(lines, n - 1) + seq!['\n'] + lines[n - 1]@
    }
}

proof fn lemma_content_end_range(lines: Seq<String>, n: int)
    requires
        n >= 0,
    ensures
        0 <= content_end(lines, n) <= n,
    decreases n,
{
    if n > 0 {
        lemma_content_end_range(lines, n - 1);
    }
}

impl TgaAuthorComments {
    /// Four empty lines.
    pub fn empty() -> (r: Self)
        ensures
            forall|i: int| 0 <= i < 4 ==> (#[trigger] r.lines@[i])@.len() == 0,
    {
        TgaAuthorComments { lines: [String::new(), String::new(), String::new(), String::new()] }
    }

    /// Wrap four lines.
    pub fn new(lines: [String; 4]) -> (r: Self)
        ensures
            r.lines == lines,
    {
        TgaAuthorComments { lines }
    }

    /// Wrap copies of four borrowed lines.
    pub fn from_strs(lines: [&str; 4]) -> (r: Self)
        ensures
            forall|i: int| 0 <= i < 4 ==> (#[trigger] r.lines@[i])@ == lines@[i]@,
    {
        let r = TgaAuthorComments {
            lines: [lines[0].to_owned(), lines[1].to_owned(), lines[2].to_owned(), lines[3].to_owned()],
        };
        assert(forall|i: int| 0 <= i < 4 ==> (#[trigger] r.lines@[i])@ == lines@[i]@) by {
            assert(r.lines@[0]@ == lines@[0]@);
            assert(r.lines@[1]@ == lines@[1]@);
            assert(r.lines@[2]@ == lines@[2]@);
            assert(r.lines@[3]@ == lines@[3]@);
        }
        r
    }

    /// Line `i`, or `None` past the fourth.
    pub fn line(&self, i: usize) -> (r: Option<&str>)
        ensures
            match r {
                Some(s) => i < 4 && s@ == self.lines@[i as int]@,
                None => i >= 4,
            },
    {
        if i < 4 {
            Some(self.lines[i].as_str())
        } else {
            None
        }
    }

    /// `true` when every line is empty or all NULs / spaces.
    pub fn is_unset(&self) -> (r: bool)
        ensures
            r == (forall|i: int| 0 <= i < 4 ==> line_blank(#[trigger] self.lines@[i])),
    {
        let mut i: usize = 0;
        while i < 4
            invariant
                i <= 4,
                forall|j: int| 0 <= j < i ==> line_blank(#[trigger] self.lines@[j]),
            decreases 4 - i,
        {
            if !bytes_blank(self.lines[i].as_str().as_bytes()) {
                return false;
            }
            i = i + 1;
        }
        true
    }

    /// `true` when every line is printable ASCII.
    pub fn is_valid_ascii(&self) -> (r: bool)
        ensures
            r == (forall|i: int|
                0 <= i < 4 ==> printable_bytes(str_bytes(#[trigger] self.lines@[i]))),
    {
        let mut i: usize = 0;
        while i < 4
            invariant
                i <= 4,
                forall|j: int| 0 <= j < i ==> printable_bytes(str_bytes(#[trigger] self.lines@[j])),
            decreases 4 - i,
        {
            if !bytes_printable(self.lines[i].as_str().as_bytes()) {
                return false;
            }
            i = i + 1;
        }
        true
    }

    /// `true` when every line fits the 80-byte per-line capacity.
    pub fn fits_capacity(&self) -> (r: bool)
        ensures
            r == (forall|i: int| 0 <= i < 4 ==> str_bytes(#[trigger] self.lines@[i]).len() <= 80),
    {
        let mut i: usize = 0;
        while i < 4
            invariant
                i <= 4,
                forall|j: int| 0 <= j < i ==> str_bytes(#[trigger] self.lines@[j]).len() <= 80,
            decreases 4 - i,
        {
            if self.lines[i].as_str().as_bytes().len() > TGA_AUTHOR_COMMENT_LINE_MAX_CHARS {
                return false;
            }
            i = i + 1;
        }
        true
    }

    /// The lines joined with `'\n'`, trailing blank lines dropped.
    pub fn joined(&self) -> (s: String)
        ensures
            s@ == join_lines(self.lines@, content_end(self.lines@, 4)),
    {
        let mut end: usize = 4;
        while end > 0 && bytes_blank(self.lines[end - 1].as_str().as_bytes())
            invariant
                end <= 4,
                content_end(self.lines@, end as int) == content_end(self.lines@, 4),
            decreases end,
        {
            end = end - 1;
        }
        proof {
            lemma_content_end_range(self.lines@, 4);
        }
        assert(end == content_end(self.lines@, 4));
        let mut s = String::new();
        let mut i: usize = 0;
        while i < end
            invariant
                i <= end <= 4,
                s@ == join_lines(self.lines@, i as int),
            decreases end - i,
        {
            proof {
                reveal_strlit("\n");
            }
            if i > 0 {
                s.append("\n");
            }
            s.append(self.lines[i].as_str());
            i = i + 1;
            assert(s@ =~= join_lines(self.lines@, i as int));
        }
        s
    }
}

} // verus!
