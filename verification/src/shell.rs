//! The shells whose histories can be imported.

pub mod bash;
pub mod fish;
pub mod zsh;

use vstd::prelude::*;

use crate::database::{import_error, is_import_of};
use crate::diff::record_fingerprints;
use crate::command::{file_name, path_file_name};
use crate::error::Error;
use crate::lines::{split_lines, to_vec};
use crate::parser::{history, matches_records, parse_history, records_view, scan, scan_lines};
use crate::execution::ExecutionView;
use crate::record::{Record, RecordView};
use crate::text::{decimal, push_decimal, push_str, strip_prefix};
use bash::{bash_start, BashParser};
use fish::{fish_start, FishParser};
use zsh::{unmetafy, unmetafy_bytes, zsh_start, ZshParser};

verus! {

/// A shell whose history can be imported.
#[derive(Clone, Copy, Debug, PartialEq, Eq, Structural)]
pub enum Shell {
    Bash,
    Fish,
    Zsh,
}

/// The fingerprints of `records`, in order.
pub open spec fn view_fingerprints(records: Seq<RecordView>) -> Seq<Seq<u8>> {
    records.map_values(|r: RecordView| r.fingerprint)
}

/// The length of the part of `s` that ends with its last line feed.
pub open spec fn terminated_len(s: Seq<u8>) -> nat
    decreases s.len(),
{
    if s.len() == 0 {
        0
    } else if s.last() == 10u8 {
        s.len()
    } else {
        terminated_len(s.drop_last())
    }
}

proof fn lemma_terminated_len(s: Seq<u8>)
    ensures
        terminated_len(s) <= s.len(),
    decreases s.len(),
{
    if s.len() > 0 && s.last() != 10u8 {
        lemma_terminated_len(s.drop_last());
    }
}

/// The records of the history `bytes` of `shell`.
///
/// A zsh history is unmetafied first; when it ends inside a metafied pair,
/// its complete lines are still read, and the first error among them, or
/// else [`Error::IncompleteMetafiedByte`], is the outcome.
pub open spec fn shell_history(shell: Shell, bytes: Seq<u8>) -> Result<Seq<RecordView>, Error> {
    match shell {
        Shell::Bash => history::<BashParser>(bash_start(), bytes),
        Shell::Fish => history::<FishParser>(fish_start(), bytes),
        Shell::Zsh => {
            let (decoded, incomplete) = unmetafy(bytes);
            if !incomplete {
                history::<ZshParser>(zsh_start(), decoded)
            } else {
                match scan::<ZshParser>(
                    zsh_start(),
                    split_lines(decoded.take(terminated_len(decoded) as int)),
                ) {
                    Err(e) => Err(e),
                    Ok(_) => Err(Error::IncompleteMetafiedByte),
                }
            }
        },
    }
}

/// The name of the program of `shell`, as bytes.
pub open spec fn program_name(shell: Shell) -> Seq<u8> {
    match shell {
        Shell::Bash => seq![98u8, 97u8, 115u8, 104u8],
        Shell::Fish => seq![102u8, 105u8, 115u8, 104u8],
        Shell::Zsh => seq![122u8, 115u8, 104u8],
    }
}

/// The shell whose program is at `program`: the one whose name is the path's
/// final component.
pub open spec fn shell_of_program(program: Seq<u8>) -> Option<Shell> {
    match file_name(program) {
        Some(name) => if name == program_name(Shell::Bash) {
            Some(Shell::Bash)
        } else if name == program_name(Shell::Fish) {
            Some(Shell::Fish)
        } else if name == program_name(Shell::Zsh) {
            Some(Shell::Zsh)
        } else {
            None
        },
        None => None,
    }
}

fn same_bytes(a: &[u8], b: &[u8]) -> (r: bool)
    ensures
        r == (a@ == b@),
{
    if a.len() != b.len() {
        return false;
    }
    let r = strip_prefix(a, b).is_some();
    proof {
        if r {
            assert(a@.take(b@.len() as int) =~= a@);
        } else if a@ == b@ {
            assert(a@.take(b@.len() as int) =~= b@);
        }
    }
    r
}

pub open spec fn format_of(shell: Shell) -> Seq<char> {
    match shell {
        Shell::Bash => "bash"@,
        Shell::Fish => "fish"@,
        Shell::Zsh => "zsh"@,
    }
}

pub open spec fn name_of(shell: Shell) -> Seq<char> {
    match shell {
        Shell::Bash => "Bash"@,
        Shell::Fish => "Fish"@,
        Shell::Zsh => "Zsh"@,
    }
}

pub open spec fn history_file_of(shell: Shell) -> Seq<u8> {
    match shell {
        Shell::Bash => seq![46u8, 98u8, 97u8, 115u8, 104u8, 95u8, 104u8, 105u8, 115u8, 116u8, 111u8, 114u8, 121u8],
        Shell::Fish => local_share() + fish_data_file(),
        Shell::Zsh => seq![46u8, 122u8, 115u8, 104u8, 95u8, 104u8, 105u8, 115u8, 116u8, 111u8, 114u8, 121u8],
    }
}

/// `fish/fish_history`, the history's place under the data directory.
pub open spec fn fish_data_file() -> Seq<u8> {
    seq![102u8, 105u8, 115u8, 104u8, 47u8, 102u8, 105u8, 115u8, 104u8, 95u8, 104u8, 105u8, 115u8, 116u8, 111u8, 114u8, 121u8]
}

/// `.local/share/`, where fish keeps its data under the home directory.
pub open spec fn local_share() -> Seq<u8> {
    seq![46u8, 108u8, 111u8, 99u8, 97u8, 108u8, 47u8, 115u8, 104u8, 97u8, 114u8, 101u8, 47u8]
}

/// `PathBuf::join` of a relative path on Unix: a separator is put between
/// the two unless `base` is empty or already ends with one.
pub open spec fn join(base: Seq<u8>, relative: Seq<u8>) -> Seq<u8> {
    if base.len() == 0 {
        relative
    } else if base.last() == 47u8 {
        base + relative
    } else {
        base + seq![47u8] + relative
    }
}

pub open spec fn nonempty(value: Option<Seq<u8>>) -> Option<Seq<u8>> {
    match value {
        Some(v) => if v.len() > 0 {
            Some(v)
        } else {
            None
        },
        None => None,
    }
}

/// Where the history of `shell` is: the given path; else, for fish, under a
/// nonempty data directory; else under a nonempty home directory.
pub open spec fn history_path_of(
    shell: Shell,
    path: Option<Seq<u8>>,
    data_home: Option<Seq<u8>>,
    home: Option<Seq<u8>>,
) -> Result<Seq<u8>, Error> {
    match path {
        Some(p) => Ok(p),
        None => match (if shell == Shell::Fish { nonempty(data_home) } else { None }) {
            Some(d) => Ok(join(d, fish_data_file())),
            None => match nonempty(home) {
                Some(h) => Ok(join(h, history_file_of(shell))),
                None => Err(Error::UnknownHistoryPath { shell }),
            },
        },
    }
}

fn bytes_of(s: &str) -> (r: Vec<u8>)
    ensures
        r@ == vstd::utf8::encode_utf8(s@),
{
    crate::text::utf8_bytes(s)
}

fn join_paths(base: &[u8], relative: &[u8]) -> (r: Vec<u8>)
    ensures
        r@ == join(base@, relative@),
{
    let mut out = to_vec(base);
    if base.len() > 0 && base[base.len() - 1] != 47u8 {
        out.push(47u8);
    }
    out.extend_from_slice(relative);
    proof {
        if base@.len() == 0 {
            assert(out@ =~= relative@);
        } else if base@.last() == 47u8 {
            assert(out@ =~= base@ + relative@);
        } else {
            assert(out@ =~= base@ + seq![47u8] + relative@);
        }
    }
    out
}

fn present(value: &Option<Vec<u8>>) -> (r: Option<&[u8]>)
    ensures
        match nonempty(crate::execution::bytes_view(*value)) {
            Some(v) => r matches Some(x) && x@ == v,
            None => r is None,
        },
{
    match value {
        Some(v) => if v.len() > 0 {
            Some(v.as_slice())
        } else {
            None
        },
        None => None,
    }
}

impl Shell {
    /// The shell whose program is at `program` (the login shell, as the
    /// `SHELL` environment variable names it): the one whose name is the
    /// path's final component.
    pub fn detect(program: &[u8]) -> (r: Option<Shell>)
        ensures
            r == shell_of_program(program@),
    {
        match path_file_name(program) {
            Some(name) => {
                let bash: [u8; 4] = [98u8, 97u8, 115u8, 104u8];
                let fish: [u8; 4] = [102u8, 105u8, 115u8, 104u8];
                let zsh: [u8; 3] = [122u8, 115u8, 104u8];
                assert(bash@ =~= program_name(Shell::Bash));
                assert(fish@ =~= program_name(Shell::Fish));
                assert(zsh@ =~= program_name(Shell::Zsh));
                if same_bytes(name, bash.as_slice()) {
                    Some(Shell::Bash)
                } else if same_bytes(name, fish.as_slice()) {
                    Some(Shell::Fish)
                } else if same_bytes(name, zsh.as_slice()) {
                    Some(Shell::Zsh)
                } else {
                    None
                }
            },
            None => None,
        }
    }

    /// The shell to import from: the one given, else the configured one,
    /// else the one whose program is at `program` (the login shell).
    pub fn select(argument: Option<Shell>, configured: Option<Shell>, program: &[u8]) -> (r: Option<
        Shell,
    >)
        ensures
            r == match argument {
                Some(s) => Some(s),
                None => match configured {
                    Some(s) => Some(s),
                    None => shell_of_program(program@),
                },
            },
    {
        match argument {
            Some(s) => Some(s),
            None => match configured {
                Some(s) => Some(s),
                None => Shell::detect(program),
            },
        }
    }

    /// The lowercase name of the shell, used to tag its executions.
    pub fn format(self) -> (r: &'static str)
        ensures
            r@ == format_of(self),
    {
        match self {
            Shell::Bash => "bash",
            Shell::Fish => "fish",
            Shell::Zsh => "zsh",
        }
    }

    /// The capitalised name of the shell, used in messages.
    pub fn name(self) -> (r: &'static str)
        ensures
            r@ == name_of(self),
    {
        match self {
            Shell::Bash => "Bash",
            Shell::Fish => "Fish",
            Shell::Zsh => "Zsh",
        }
    }

    /// Where the shell keeps its history, relative to the home directory.
    pub fn history_file(self) -> (r: Vec<u8>)
        ensures
            r@ == history_file_of(self),
    {
        match self {
            Shell::Bash => {
                let r: Vec<u8> = vec![46u8, 98u8, 97u8, 115u8, 104u8, 95u8, 104u8, 105u8, 115u8, 116u8, 111u8, 114u8, 121u8];
                assert(r@ =~= history_file_of(self));
                r
            },
            Shell::Fish => {
                let mut r: Vec<u8> = vec![46u8, 108u8, 111u8, 99u8, 97u8, 108u8, 47u8, 115u8, 104u8, 97u8, 114u8, 101u8, 47u8];
                let data: Vec<u8> = fish_data_file_bytes();
                r.extend_from_slice(data.as_slice());
                assert(r@ =~= history_file_of(self));
                r
            },
            Shell::Zsh => {
                let r: Vec<u8> = vec![46u8, 122u8, 115u8, 104u8, 95u8, 104u8, 105u8, 115u8, 116u8, 111u8, 114u8, 121u8];
                assert(r@ =~= history_file_of(self));
                r
            },
        }
    }

    /// The path of the history to import: `path` when given; otherwise, for
    /// fish, `fish/fish_history` under a nonempty `data_home`; otherwise the
    /// shell's history file under a nonempty `home`.
    pub fn history_path(
        self,
        path: Option<Vec<u8>>,
        data_home: Option<Vec<u8>>,
        home: Option<Vec<u8>>,
    ) -> (r: Result<Vec<u8>, Error>)
        ensures
            match history_path_of(
                self,
                crate::execution::bytes_view(path),
                crate::execution::bytes_view(data_home),
                crate::execution::bytes_view(home),
            ) {
                Ok(p) => r matches Ok(q) && q@ == p,
                Err(e) => r == Err::<Vec<u8>, Error>(e),
            },
    {
        if let Some(p) = path {
            return Ok(p);
        }
        if self == Shell::Fish {
            if let Some(d) = present(&data_home) {
                let data = fish_data_file_bytes();
                return Ok(join_paths(d, data.as_slice()));
            }
        }
        match present(&home) {
            Some(h) => {
                let file = self.history_file();
                Ok(join_paths(h, file.as_slice()))
            },
            None => Err(Error::UnknownHistoryPath { shell: self }),
        }
    }

    /// Imports the history `bytes`, read from `source`, into `database`:
    /// its records, each tagged with the shell's format, reconciled with
    /// those of the previous import of `source`. Returns the number of new
    /// executions.
    pub fn import<F: FnMut(crate::database::Tally)>(
        self,
        database: &crate::database::Database,
        source: &[u8],
        bytes: &[u8],
        progress: F,
    ) -> (r: Result<usize, Error>)
        requires
            forall|t: crate::database::Tally|
                (shell_history(self, bytes@) matches Ok(v) && crate::database::tally_within(
                    t,
                    v.len(),
                )) ==> call_requires(progress, (t,)),
        ensures
            shell_history(self, bytes@) is Err ==> r is Err,
            r matches Ok(n) ==> shell_history(self, bytes@) matches Ok(records) && n
                <= records.len() && (n == 0 || exists|previous: Seq<Seq<u8>>|
                is_import_of(n as nat, previous, view_fingerprints(records))),
            (shell_history(self, bytes@) matches Ok(records) && records.len() >= i32::MAX) ==> r is Err,
            shell_history(self, bytes@) matches Err(e) ==> (r == Err::<usize, Error>(e)
                || r matches Err(Error::Sqlite { .. })),
            r matches Err(e) ==> (shell_history(self, bytes@) == Err::<Seq<RecordView>, Error>(e)
                || import_error(e)),
            (shell_history(self, bytes@) is Ok && r matches Err(Error::TooManyRecords)) ==> (
            shell_history(self, bytes@) matches Ok(records) && records.len() >= i32::MAX),
    {
        let records = self.import_records(bytes);
        proof {
            if let Ok(v) = shell_history(self, bytes@) {
                let w = records->Ok_0@;
                assert(records_view(w).len() == v.len());
                assert forall|j: int| 0 <= j < v.len() implies #[trigger] w[j].fingerprint@
                    == v[j].fingerprint by {
                    assert(records_view(w)[j] == w[j]@);
                    assert(records_view(w)[j] == tagged(v[j], format_of(self)));
                }
                assert(view_fingerprints(v) =~= record_fingerprints(w));
            }
        }
        database.import(self.format(), source, records, progress)
    }

    /// The records of the history `bytes`, each tagged with the shell's
    /// format: what an import of it hands to the database.
    pub fn import_records(self, bytes: &[u8]) -> (r: Result<Vec<Record>, Error>)
        ensures
            match shell_history(self, bytes@) {
                Ok(v) => r matches Ok(w) && records_view(w@) == v.map_values(
                    |x: RecordView| tagged(x, format_of(self)),
                ),
                Err(e) => r == Err::<Vec<Record>, Error>(e),
            },
    {
        match self.records(bytes) {
            Ok(records) => Ok(tag_records(records, self.format())),
            Err(e) => Err(e),
        }
    }

    /// The records of the history `bytes`.
    pub fn records(self, bytes: &[u8]) -> (r: Result<Vec<Record>, Error>)
        ensures
            matches_records(shell_history(self, bytes@), r),
    {
        match self {
            Shell::Bash => {
                let mut parser = BashParser::new();
                parse_history(&mut parser, bytes)
            },
            Shell::Fish => {
                let mut parser = FishParser::new();
                parse_history(&mut parser, bytes)
            },
            Shell::Zsh => {
                let (decoded, incomplete) = unmetafy_bytes(bytes);
                let mut parser = ZshParser::new();
                if !incomplete {
                    parse_history(&mut parser, decoded.as_slice())
                } else {
                    let end = terminated_length(decoded.as_slice());
                    match scan_lines(&mut parser, &decoded.as_slice()[0..end]) {
                        Err(e) => Err(e),
                        Ok(_) => Err(Error::IncompleteMetafiedByte),
                    }
                }
            },
        }
    }
}

fn fish_data_file_bytes() -> (r: Vec<u8>)
    ensures
        r@ == fish_data_file(),
{
    let r: Vec<u8> = vec![102u8, 105u8, 115u8, 104u8, 47u8, 102u8, 105u8, 115u8, 104u8, 95u8, 104u8, 105u8, 115u8, 116u8, 111u8, 114u8, 121u8];
    assert(r@ =~= fish_data_file());
    r
}

/// `record` with its execution tagged as run in the shell `shell`.
pub open spec fn tagged(record: RecordView, shell: Seq<char>) -> RecordView {
    RecordView { execution: ExecutionView { shell: Some(shell), ..record.execution }, ..record }
}

/// Tags every record with `format`, the shell its execution ran in, leaving
/// the rest of each record and their order as they are.
pub fn tag_records(records: Vec<Record>, format: &str) -> (r: Vec<Record>)
    ensures
        records_view(r@) == records_view(records@).map_values(|x: RecordView| tagged(x, format@)),
{
    let ghost original = records@;
    let n = records.len();
    let mut rest = records;
    let mut reversed: Vec<Record> = Vec::new();
    while rest.len() > 0
        invariant
            rest.len() + reversed.len() == n == original.len(),
            rest@ == original.take(rest.len() as int),
            forall|j: int|
                0 <= j < reversed.len() ==> (#[trigger] reversed@[j])@ == tagged(
                    original[n - 1 - j]@,
                    format@,
                ),
        decreases rest.len(),
    {
        let ghost before = rest@;
        let mut record = rest.pop().unwrap();
        assert(before.drop_last() =~= original.take(rest.len() as int));
        record.execution.shell = Some(format.to_owned());
        reversed.push(record);
    }
    let mut out: Vec<Record> = Vec::new();
    while reversed.len() > 0
        invariant
            out.len() + reversed.len() == n == original.len(),
            forall|j: int|
                0 <= j < reversed.len() ==> (#[trigger] reversed@[j])@ == tagged(
                    original[n - 1 - j]@,
                    format@,
                ),
            forall|j: int|
                0 <= j < out.len() ==> (#[trigger] out@[j])@ == tagged(original[j]@, format@),
        decreases reversed.len(),
    {
        let record = reversed.pop().unwrap();
        out.push(record);
    }
    assert(records_view(out@) =~= records_view(original).map_values(
        |x: RecordView| tagged(x, format@),
    ));
    out
}

/// The length of the part of `s` that ends with its last line feed.
fn terminated_length(s: &[u8]) -> (n: usize)
    ensures
        n == terminated_len(s@),
        n <= s@.len(),
{
    let mut n = s.len();
    assert(s@.take(n as int) =~= s@);
    while n > 0 && s[n - 1] != 10u8
        invariant
            n <= s@.len(),
            terminated_len(s@) == terminated_len(s@.take(n as int)),
        decreases n,
    {
        assert(s@.take(n as int).drop_last() =~= s@.take(n - 1));
        n -= 1;
    }
    proof {
        lemma_terminated_len(s@);
        if n > 0 {
            assert(s@.take(n as int).last() == s@[n - 1]);
        }
    }
    n
}

/// The line printed after an import: how many executions were new, and from
/// where they came.
pub open spec fn import_summary_text(inserted: usize, path: Seq<char>) -> Seq<char> {
    "imported "@ + decimal(inserted as nat) + (if inserted == 1 {
        " execution from "@
    } else {
        " executions from "@
    }) + path
}

/// The line printed after an import.
pub fn import_summary(inserted: usize, path: &str) -> (r: String)
    ensures
        r@ == import_summary_text(inserted, path@),
{
    let mut r = String::new();
    push_str(&mut r, "imported ");
    push_decimal(&mut r, inserted as u64);
    if inserted == 1 {
        push_str(&mut r, " execution from ");
    } else {
        push_str(&mut r, " executions from ");
    }
    push_str(&mut r, path);
    assert(r@ =~= import_summary_text(inserted, path@));
    r
}

} // verus!
