//! A command as a row of interactive search: age, directory, exit code and
//! command text in aligned columns.

use vstd::prelude::*;

use crate::command::{directory_label, Command};
use crate::text::{decimal, push_char, push_decimal, push_signed_decimal, push_str, signed_decimal};
use crate::truncate::{display_width, truncated, width, Truncate};

verus! {

/// A command offered by interactive search.
pub struct Choice {
    pub command: Command,
    pub directory_width: usize,
    pub now_ns: i64,
}

/// The directory column's width when none is configured.
pub const DEFAULT_DIRECTORY_WIDTH: usize = 16;

/// Timestamps before this one (about 2001-09-09) are orders, not times, and
/// have no age.
pub const EARLIEST_TIMESTAMP_NS: i64 = 1_000_000_000_000_000_000;

/// The exit code column's width.
pub const EXIT_CODE_WIDTH: usize = 5;

pub const SECOND: i64 = 1_000_000_000;

pub const MINUTE: i64 = 60_000_000_000;

pub const HOUR: i64 = 3_600_000_000_000;

pub const DAY: i64 = 86_400_000_000_000;

pub const MONTH: i64 = 2_592_000_000_000_000;

pub const YEAR: i64 = 31_536_000_000_000_000;

/// `char::is_control`: the general category Cc, U+0000 to U+001F and U+007F
/// to U+009F.
pub open spec fn is_control(c: char) -> bool {
    (c as u32) <= 0x1f || (0x7f <= (c as u32) && (c as u32) <= 0x9f)
}

/// `text` on one line: every control character becomes a space.
pub open spec fn one_line(text: Seq<char>) -> Seq<char> {
    text.map_values(|c: char| if is_control(c) { ' ' } else { c })
}

pub open spec fn spaces(n: nat) -> Seq<char> {
    Seq::new(n, |i: int| ' ')
}

/// `text` right-aligned in `width` characters, as `{:>width}` formats it.
pub open spec fn pad_left(text: Seq<char>, width: nat) -> Seq<char> {
    if text.len() < width {
        spaces((width - text.len()) as nat) + text
    } else {
        text
    }
}

/// `text` left-aligned in `width` characters, as `{:<width}` formats it.
pub open spec fn pad_right(text: Seq<char>, width: nat) -> Seq<char> {
    if text.len() < width {
        text + spaces((width - text.len()) as nat)
    } else {
        text
    }
}

/// How long ago `timestamp_ns` was at `now_ns`, in the largest unit that
/// fits: seconds, minutes, hours, days, 30-day months or 365-day years; empty
/// for timestamps that are orders rather than times.
pub open spec fn age_text(timestamp_ns: i64, now_ns: i64) -> Seq<char> {
    if timestamp_ns < EARLIEST_TIMESTAMP_NS {
        seq![]
    } else {
        let age: int = if now_ns - timestamp_ns > 0 {
            now_ns - timestamp_ns
        } else {
            0
        };
        if age < MINUTE {
            decimal((age / SECOND as int) as nat) + "s"@
        } else if age < HOUR {
            decimal((age / MINUTE as int) as nat) + "m"@
        } else if age < DAY {
            decimal((age / HOUR as int) as nat) + "h"@
        } else if age < MONTH {
            decimal((age / DAY as int) as nat) + "d"@
        } else if age < YEAR {
            decimal((age / MONTH as int) as nat) + "mo"@
        } else {
            decimal((age / YEAR as int) as nat) + "y"@
        }
    }
}

/// The exit code column: `[code]` for a failure, empty otherwise.
pub open spec fn exit_code_text(exit_code: Option<i32>) -> Seq<char> {
    match exit_code {
        Some(code) => if code != 0 {
            "["@ + signed_decimal(code as int) + "]"@
        } else {
            seq![]
        },
        None => seq![],
    }
}

/// The directory column: the directory's name shortened to `width` columns
/// and padded with spaces to them.
pub open spec fn directory_text(directory: Option<Seq<u8>>, width: nat) -> Seq<char> {
    let name = match directory {
        Some(d) => truncated(directory_label(d), width),
        None => seq![],
    };
    name + spaces(
        if display_width(name) < width {
            (width - display_width(name)) as nat
        } else {
            0
        },
    )
}

/// The metadata columns: the age right-aligned in four characters and the
/// directory column, each followed by two spaces.
pub open spec fn metadata_text(command: Command, directory_width: nat, now_ns: i64) -> Seq<char> {
    pad_left(age_text(command.timestamp_ns, now_ns), 4) + "  "@ + directory_text(
        crate::execution::bytes_view(command.directory),
        directory_width,
    ) + "  "@
}

/// The exit code column, left-aligned in five characters and followed by two
/// spaces.
pub open spec fn exit_code_column_text(exit_code: Option<i32>) -> Seq<char> {
    pad_right(exit_code_text(exit_code), 5) + "  "@
}

/// `char::is_control`.
pub fn is_control_char(c: char) -> (r: bool)
    ensures
        r == is_control(c),
{
    let code = c as u32;
    code <= 0x1f || (0x7f <= code && code <= 0x9f)
}

/// The characters of `text` (`str::chars`, collected).
#[verifier::external_body]
fn chars_of(text: &str) -> (r: Vec<char>)
    ensures
        r@ == text@,
{
    text.chars().collect()
}

fn push_spaces(s: &mut String, n: usize)
    ensures
        final(s)@ == old(s)@ + spaces(n as nat),
{
    let mut i: usize = 0;
    while i < n
        invariant
            i <= n,
            s@ == old(s)@ + spaces(i as nat),
        decreases n - i,
    {
        push_char(s, ' ');
        assert(spaces((i + 1) as nat) =~= spaces(i as nat).push(' '));
        i += 1;
    }
}

/// Appends `text` right-aligned in `width` characters.
fn push_padded_left(s: &mut String, text: &String, width: usize)
    ensures
        final(s)@ == old(s)@ + pad_left(text@, width as nat),
{
    let count = chars_of(text.as_str()).len();
    if count < width {
        push_spaces(s, width - count);
    }
    push_str(s, text.as_str());
    assert(final(s)@ =~= old(s)@ + pad_left(text@, width as nat));
}

/// Appends `text` left-aligned in `width` characters.
fn push_padded_right(s: &mut String, text: &String, width: usize)
    ensures
        final(s)@ == old(s)@ + pad_right(text@, width as nat),
{
    let count = chars_of(text.as_str()).len();
    push_str(s, text.as_str());
    if count < width {
        push_spaces(s, width - count);
    }
    assert(final(s)@ =~= old(s)@ + pad_right(text@, width as nat));
}

impl Choice {
    /// The command text on one line.
    pub fn command_text(&self) -> (r: String)
        ensures
            r@ == one_line(self.command.text@),
    {
        let chars = chars_of(self.command.text.as_str());
        let mut r = String::new();
        let mut i: usize = 0;
        while i < chars.len()
            invariant
                i <= chars.len(),
                chars@ == self.command.text@,
                r@ == one_line(chars@.take(i as int)),
            decreases chars.len() - i,
        {
            let c = chars[i];
            push_char(&mut r, if is_control_char(c) { ' ' } else { c });
            assert(one_line(chars@.take(i + 1)) =~= one_line(chars@.take(i as int)).push(
                if is_control(c) {
                    ' '
                } else {
                    c
                },
            ));
            i += 1;
        }
        assert(chars@.take(chars.len() as int) =~= chars@);
        r
    }

    /// The directory column.
    pub fn directory(&self) -> (r: String)
        ensures
            r@ == directory_text(
                crate::execution::bytes_view(self.command.directory),
                self.directory_width as nat,
            ),
    {
        let mut r = match self.command.directory_name() {
            Some(name) => name.as_str().truncate(self.directory_width),
            None => String::new(),
        };
        let used = width(r.as_str());
        if used < self.directory_width as u64 {
            push_spaces(&mut r, self.directory_width - used as usize);
        } else {
            push_spaces(&mut r, 0);
        }
        r
    }

    /// The exit code column, unpadded.
    pub fn exit_code(&self) -> (r: String)
        ensures
            r@ == exit_code_text(self.command.exit_code),
    {
        let mut r = String::new();
        match self.command.exit_code {
            Some(code) => if code != 0 {
                push_str(&mut r, "[");
                push_signed_decimal(&mut r, code as i64);
                push_str(&mut r, "]");
            },
            None => {},
        }
        assert(r@ =~= exit_code_text(self.command.exit_code));
        r
    }

    /// How long ago the command ran, unpadded.
    pub fn relative_age(&self) -> (r: String)
        ensures
            r@ == age_text(self.command.timestamp_ns, self.now_ns),
    {
        let mut r = String::new();
        let timestamp = self.command.timestamp_ns;
        if timestamp < EARLIEST_TIMESTAMP_NS {
            assert(r@ =~= Seq::<char>::empty());
            return r;
        }
        let age: i64 = if self.now_ns > timestamp {
            self.now_ns - timestamp
        } else {
            0
        };
        if age < MINUTE {
            push_decimal(&mut r, (age / SECOND) as u64);
            push_str(&mut r, "s");
        } else if age < HOUR {
            push_decimal(&mut r, (age / MINUTE) as u64);
            push_str(&mut r, "m");
        } else if age < DAY {
            push_decimal(&mut r, (age / HOUR) as u64);
            push_str(&mut r, "h");
        } else if age < MONTH {
            push_decimal(&mut r, (age / DAY) as u64);
            push_str(&mut r, "d");
        } else if age < YEAR {
            push_decimal(&mut r, (age / MONTH) as u64);
            push_str(&mut r, "mo");
        } else {
            push_decimal(&mut r, (age / YEAR) as u64);
            push_str(&mut r, "y");
        }
        assert(r@ =~= age_text(self.command.timestamp_ns, self.now_ns));
        r
    }

    /// The metadata columns of the row: age right-aligned in four
    /// characters and the directory column, each followed by two spaces.
    pub fn metadata(&self) -> (r: String)
        ensures
            r@ == metadata_text(self.command, self.directory_width as nat, self.now_ns),
    {
        let mut r = String::new();
        push_padded_left(&mut r, &self.relative_age(), 4);
        push_str(&mut r, "  ");
        push_str(&mut r, self.directory().as_str());
        push_str(&mut r, "  ");
        assert(r@ =~= metadata_text(self.command, self.directory_width as nat, self.now_ns));
        r
    }

    /// The exit code column of the row: left-aligned in five characters and
    /// followed by two spaces.
    pub fn exit_code_column(&self) -> (r: String)
        ensures
            r@ == exit_code_column_text(self.command.exit_code),
    {
        let mut r = String::new();
        push_padded_right(&mut r, &self.exit_code(), EXIT_CODE_WIDTH);
        push_str(&mut r, "  ");
        assert(r@ =~= exit_code_column_text(self.command.exit_code));
        r
    }

    /// The whole row: the metadata columns, the exit code column and the
    /// command on one line.
    pub fn row(&self) -> (r: String)
        ensures
            r@ == metadata_text(self.command, self.directory_width as nat, self.now_ns)
                + exit_code_column_text(self.command.exit_code) + one_line(self.command.text@),
    {
        let mut r = self.metadata();
        push_str(&mut r, self.exit_code_column().as_str());
        push_str(&mut r, self.command_text().as_str());
        r
    }

    /// The text that search matches against: the command as recorded.
    pub fn text(&self) -> (r: &str)
        ensures
            r@ == self.command.text@,
    {
        self.command.text.as_str()
    }

    /// What search prints when the command is chosen: the command as recorded.
    pub fn output(&self) -> (r: &str)
        ensures
            r@ == self.command.text@,
    {
        self.command.text.as_str()
    }
}

} // verus!
