//! Commands: the most recent execution of each distinct command text.

use vstd::prelude::*;

use crate::execution::bytes_view;
use crate::text::{decode_lossy, lossy_utf8};

verus! {

/// The latest execution of a command text, as search shows it.
#[derive(Clone, Debug, Default, PartialEq, Eq)]
pub struct Command {
    /// The working directory, as the bytes of a path.
    pub directory: Option<Vec<u8>>,
    pub exit_code: Option<i32>,
    pub text: String,
    pub timestamp_ns: i64,
}

/// The mathematical value of a [`Command`].
pub struct CommandView {
    pub directory: Option<Seq<u8>>,
    pub exit_code: Option<i32>,
    pub text: Seq<char>,
    pub timestamp_ns: i64,
}

impl View for Command {
    type V = CommandView;

    open spec fn view(&self) -> CommandView {
        CommandView {
            directory: bytes_view(self.directory),
            exit_code: self.exit_code,
            text: self.text@,
            timestamp_ns: self.timestamp_ns,
        }
    }
}

pub open spec fn slash() -> u8 {
    47u8
}

/// The index just past the last `/` of `p`, or 0 when it has none.
pub open spec fn segment_start(p: Seq<u8>) -> nat
    decreases p.len(),
{
    if p.len() == 0 {
        0
    } else if p.last() == slash() {
        p.len()
    } else {
        segment_start(p.drop_last())
    }
}

/// The final component of the Unix path `p` (`Path::file_name`): its last
/// component once trailing slashes and `.` components are dropped, unless
/// there is none or it is `..`.
pub open spec fn file_name(p: Seq<u8>) -> Option<Seq<u8>>
    decreases p.len(),
{
    if p.len() == 0 {
        None
    } else if p.last() == slash() {
        file_name(p.drop_last())
    } else {
        let start = segment_start(p);
        proof {
            lemma_segment_start(p);
        }
        let segment = p.subrange(start as int, p.len() as int);
        if segment == seq![46u8] {
            file_name(p.take(start as int))
        } else if segment == seq![46u8, 46u8] {
            None
        } else {
            Some(segment)
        }
    }
}

pub proof fn lemma_segment_start(p: Seq<u8>)
    ensures
        segment_start(p) <= p.len(),
        p.len() > 0 && p.last() != slash() ==> segment_start(p) < p.len(),
    decreases p.len(),
{
    if p.len() > 0 && p.last() != slash() {
        lemma_segment_start(p.drop_last());
    }
}

/// The index just past the last `/` of `p[..end]`.
fn find_segment_start(p: &[u8], end: usize) -> (start: usize)
    requires
        end <= p@.len(),
    ensures
        start == segment_start(p@.take(end as int)),
{
    let mut j = end;
    while j > 0 && p[j - 1] != 47u8
        invariant
            j <= end <= p@.len(),
            segment_start(p@.take(end as int)) == segment_start(p@.take(j as int)),
        decreases j,
    {
        assert(p@.take(j as int).drop_last() =~= p@.take(j - 1));
        j -= 1;
    }
    j
}

/// The final component of the path `p`, as `Path::file_name` gives it.
pub fn path_file_name(p: &[u8]) -> (r: Option<&[u8]>)
    ensures
        r matches Some(name) ==> file_name(p@) == Some(name@),
        r is None ==> file_name(p@) is None,
{
    let mut end = p.len();
    assert(p@.take(end as int) =~= p@);
    loop
        invariant
            end <= p@.len(),
            file_name(p@) == file_name(p@.take(end as int)),
        decreases end,
    {
        if end == 0 {
            return None;
        }
        let ghost q = p@.take(end as int);
        if p[end - 1] == 47u8 {
            assert(q.drop_last() =~= p@.take(end - 1));
            end -= 1;
        } else {
            let start = find_segment_start(p, end);
            proof {
                lemma_segment_start(q);
            }
            let segment = &p[start..end];
            assert(segment@ =~= q.subrange(start as int, q.len() as int));
            if end - start == 1 && p[start] == 46u8 {
                assert(segment@ =~= seq![46u8]);
                assert(q.take(start as int) =~= p@.take(start as int));
                end = start;
            } else if end - start == 2 && p[start] == 46u8 && p[start + 1] == 46u8 {
                assert(segment@ =~= seq![46u8, 46u8]);
                return None;
            } else {
                assert(segment@.len() != 1 || segment@[0] != 46u8);
                assert(segment@.len() != 2 || segment@[0] != 46u8 || segment@[1] != 46u8);
                assert(segment@ != seq![46u8]) by {
                    if segment@ == seq![46u8] {
                        assert(seq![46u8][0] == 46u8);
                    }
                }
                assert(segment@ != seq![46u8, 46u8]) by {
                    if segment@ == seq![46u8, 46u8] {
                        assert(seq![46u8, 46u8][1] == 46u8);
                    }
                }
                return Some(segment);
            }
        }
    }
}

/// The name shown for a directory: its final component, or the whole path
/// when it has none, decoded lossily.
pub open spec fn directory_label(d: Seq<u8>) -> Seq<char> {
    lossy_utf8(
        match file_name(d) {
            Some(name) => name,
            None => d,
        },
    )
}

impl Command {
    /// The name of the command's working directory, if it has one.
    pub fn directory_name(&self) -> (r: Option<String>)
        ensures
            match self.directory {
                None => r is None,
                Some(d) => r matches Some(name) && name@ == directory_label(d@),
            },
    {
        match &self.directory {
            None => None,
            Some(d) => {
                let name = match path_file_name(d.as_slice()) {
                    Some(name) => name,
                    None => d.as_slice(),
                };
                Some(decode_lossy(name))
            },
        }
    }
}

} // verus!
