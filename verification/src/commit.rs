//! How content comes to its place: it is written next to it under another name, and takes the
//! place only when it is whole.
use crate::content::{copied, copy_piece, copy_piece_of, lemma_copy_is_whole};
use crate::handle_content::HandleBody;
use crate::status::{status_of, Code, Status};
use crate::text::join2;
use vstd::prelude::*;
use vstd::string::StringExecFns;

verus! {

/// Where the content comes from.
#[derive(Debug, Clone, PartialEq, Eq)]
pub enum CommitSource {
    /// Bytes that came with a request; they are written at once.
    Bytes,
    /// A handle that is still open; it writes itself out.
    Stream,
    /// The bytes of a handle that was closed for it.
    Memory,
    /// The file that such a handle was spilled to.
    Spilled { path: String, len: u64 },
}

#[verifier::ext_equal]
pub enum SourceView {
    Bytes,
    Stream,
    Memory,
    Spilled { path: Seq<char>, len: u64 },
}

impl View for CommitSource {
    type V = SourceView;

    open spec fn view(&self) -> SourceView {
        match *self {
            CommitSource::Bytes => SourceView::Bytes,
            CommitSource::Stream => SourceView::Stream,
            CommitSource::Memory => SourceView::Memory,
            CommitSource::Spilled { path, len } => SourceView::Spilled { path: path@, len },
        }
    }
}

/// What is done next.
#[derive(Debug, Clone, Copy, PartialEq, Eq, Structural)]
pub enum CommitStep {
    /// Make the directory that the file is in, with all above it.
    MakeParent,
    OpenTemp,
    /// Write the bytes to the temporary file; it is made where it was not opened.
    WriteTemp,
    /// Let the handle write itself to the temporary file.
    StreamTemp,
    OpenSpilled,
    /// Read that many bytes of the spilled file, and write them to the temporary one.
    Copy { bytes: usize },
    SyncTemp,
    /// Give the temporary file the name of the file. Where that fails, remove it.
    Rename,
    OpenFile,
    SyncFile,
    Done,
}

/// The writing of one file.
#[derive(Debug, Clone)]
pub struct ContentCommit {
    source: CommitSource,
    chunk: usize,
    /// How much of the spilled file is still to be copied.
    remaining: u64,
    step: CommitStep,
}

#[verifier::ext_equal]
pub struct CommitView {
    pub source: SourceView,
    pub chunk: usize,
    pub remaining: u64,
    pub step: CommitStep,
}

impl View for ContentCommit {
    type V = CommitView;

    closed spec fn view(&self) -> CommitView {
        CommitView {
            source: self.source@,
            chunk: self.chunk,
            remaining: self.remaining,
            step: self.step,
        }
    }
}

/// What follows once `remaining` bytes are left to copy.
pub open spec fn copy_or_sync(remaining: u64, chunk: usize) -> CommitStep {
    if remaining == 0 {
        CommitStep::SyncTemp
    } else {
        CommitStep::Copy { bytes: copy_piece_of(remaining, chunk) as usize }
    }
}

impl CommitView {
    /// The writing once its present step is done.
    pub open spec fn advanced(self) -> CommitView {
        match self.step {
            CommitStep::MakeParent => CommitView {
                step: if self.source is Bytes {
                    CommitStep::WriteTemp
                } else {
                    CommitStep::OpenTemp
                },
                ..self
            },
            CommitStep::OpenTemp => CommitView {
                step: match self.source {
                    SourceView::Stream => CommitStep::StreamTemp,
                    SourceView::Spilled { .. } => CommitStep::OpenSpilled,
                    _ => CommitStep::WriteTemp,
                },
                ..self
            },
            CommitStep::WriteTemp => CommitView {
                step: if self.source is Memory {
                    CommitStep::SyncTemp
                } else {
                    CommitStep::Rename
                },
                ..self
            },
            CommitStep::StreamTemp => CommitView { step: CommitStep::Rename, ..self },
            CommitStep::OpenSpilled => CommitView {
                step: copy_or_sync(self.remaining, self.chunk),
                ..self
            },
            CommitStep::Copy { bytes } => {
                let left = (self.remaining - bytes) as u64;
                CommitView { remaining: left, step: copy_or_sync(left, self.chunk), ..self }
            },
            CommitStep::SyncTemp => CommitView { step: CommitStep::Rename, ..self },
            CommitStep::Rename => CommitView { step: CommitStep::OpenFile, ..self },
            CommitStep::OpenFile => CommitView { step: CommitStep::SyncFile, ..self },
            CommitStep::SyncFile | CommitStep::Done => CommitView {
                step: CommitStep::Done,
                ..self
            },
        }
    }

    /// Nothing is copied that is not there, and the temporary file is whole before anything is
    /// done to the file itself.
    pub open spec fn well_formed(self) -> bool {
        match self.source {
            SourceView::Spilled { len, .. } => match self.step {
                CommitStep::MakeParent | CommitStep::OpenTemp | CommitStep::OpenSpilled =>
                    self.remaining == len,
                CommitStep::Copy { bytes } => {
                    &&& 0 < self.remaining <= len
                    &&& bytes == copy_piece_of(self.remaining, self.chunk)
                },
                CommitStep::WriteTemp | CommitStep::StreamTemp => false,
                _ => self.remaining == 0,
            },
            SourceView::Bytes => self.step is WriteTemp || self.is_common(),
            SourceView::Stream => self.step is OpenTemp || self.step is StreamTemp
                || self.is_common(),
            SourceView::Memory => self.step is OpenTemp || self.step is WriteTemp
                || self.step is SyncTemp || self.is_common(),
        }
    }

    /// The step is one that all content goes through.
    pub open spec fn is_common(self) -> bool {
        match self.step {
            CommitStep::MakeParent | CommitStep::Rename | CommitStep::OpenFile
            | CommitStep::SyncFile | CommitStep::Done => true,
            _ => false,
        }
    }

    pub open spec fn is_final(self) -> bool {
        self.step == CommitStep::Done
    }
}

impl ContentCommit {
    /// The writing of `source`, which copies in pieces of `chunk` bytes.
    pub fn new(source: CommitSource, chunk: usize) -> (r: ContentCommit)
        ensures
            r@.well_formed(),
            r@ == (CommitView {
                source: source@,
                chunk,
                remaining: match source@ {
                    SourceView::Spilled { len, .. } => len,
                    _ => 0,
                },
                step: CommitStep::MakeParent,
            }),
    {
        let remaining: u64 = match &source {
            CommitSource::Spilled { path: _, len } => *len,
            _ => 0,
        };
        ContentCommit { source, chunk, remaining, step: CommitStep::MakeParent }
    }

    /// The writing of what a closed handle held.
    pub fn of_snapshot(body: &HandleBody, chunk: usize) -> (r: ContentCommit)
        ensures
            r@.well_formed(),
            r@ == (CommitView {
                source: match *body {
                    HandleBody::Memory(_) => SourceView::Memory,
                    HandleBody::Spilled { len, path } => SourceView::Spilled { path: path@, len },
                },
                chunk,
                remaining: match *body {
                    HandleBody::Memory(_) => 0,
                    HandleBody::Spilled { len, .. } => len,
                },
                step: CommitStep::MakeParent,
            }),
    {
        match body {
            HandleBody::Memory(_) => ContentCommit::new(CommitSource::Memory, chunk),
            HandleBody::Spilled { len, path } => ContentCommit::new(
                CommitSource::Spilled { path: path.clone(), len: *len },
                chunk,
            ),
        }
    }

    /// What is done next.
    pub fn step(&self) -> (r: CommitStep)
        ensures
            r == self@.step,
    {
        self.step
    }

    /// The file that the content is copied from, where it was spilled to one.
    pub fn spilled_path(&self) -> (r: Option<&str>)
        ensures
            match r {
                Some(p) => self@.source matches SourceView::Spilled { path, .. } && path == p@,
                None => !(self@.source is Spilled),
            },
    {
        match &self.source {
            CommitSource::Spilled { path, len: _ } => Some(path.as_str()),
            _ => None,
        }
    }

    /// The present step is done.
    pub fn advance(&mut self)
        requires
            old(self)@.well_formed(),
        ensures
            final(self)@ == old(self)@.advanced(),
            final(self)@.well_formed(),
    {
        match self.step {
            CommitStep::MakeParent => {
                self.step = match &self.source {
                    CommitSource::Bytes => CommitStep::WriteTemp,
                    _ => CommitStep::OpenTemp,
                };
            },
            CommitStep::OpenTemp => {
                self.step = match &self.source {
                    CommitSource::Stream => CommitStep::StreamTemp,
                    CommitSource::Spilled { .. } => CommitStep::OpenSpilled,
                    _ => CommitStep::WriteTemp,
                };
            },
            CommitStep::WriteTemp => {
                self.step = match &self.source {
                    CommitSource::Memory => CommitStep::SyncTemp,
                    _ => CommitStep::Rename,
                };
            },
            CommitStep::OpenSpilled => {
                self.step = self.next_copy();
            },
            CommitStep::Copy { bytes } => {
                self.remaining = self.remaining - bytes as u64;
                self.step = self.next_copy();
            },
            CommitStep::StreamTemp | CommitStep::SyncTemp => {
                self.step = CommitStep::Rename;
            },
            CommitStep::Rename => {
                self.step = CommitStep::OpenFile;
            },
            CommitStep::OpenFile => {
                self.step = CommitStep::SyncFile;
            },
            CommitStep::SyncFile | CommitStep::Done => {
                self.step = CommitStep::Done;
            },
        }
    }

    fn next_copy(&self) -> (r: CommitStep)
        ensures
            r == copy_or_sync(self.remaining, self.chunk),
    {
        if self.remaining == 0 {
            CommitStep::SyncTemp
        } else {
            CommitStep::Copy { bytes: copy_piece(self.remaining, self.chunk) }
        }
    }
}

/// What is said of a step that failed. `place` is the file or directory that it was about: of a
/// copy, `reading` says whether it was the spilled file or the temporary one.
pub open spec fn commit_failure_of(
    step: CommitStep,
    reading: bool,
    place: Seq<char>,
    error: Seq<char>,
) -> Seq<char> {
    let what = match step {
        CommitStep::MakeParent => "failed creating parent directory "@,
        CommitStep::OpenTemp => "failed opening temp content file "@,
        CommitStep::WriteTemp => "failed writing temp content file "@,
        CommitStep::StreamTemp => "failed streaming handle content to "@,
        CommitStep::OpenSpilled => "failed opening spilled handle file "@,
        CommitStep::Copy { .. } => if reading {
            "failed reading spilled handle file "@
        } else {
            "failed writing temp content file "@
        },
        CommitStep::SyncTemp => "failed fsync temp content file "@,
        CommitStep::Rename => "failed committing content file "@,
        CommitStep::OpenFile => "failed opening content file for fsync "@,
        CommitStep::SyncFile | CommitStep::Done => "failed fsync content file "@,
    };
    what + place + ": "@ + error
}

pub fn commit_failure(step: CommitStep, reading: bool, place: &str, error: &str) -> (r: Status)
    ensures
        r@ == status_of(Code::Internal, commit_failure_of(step, reading, place@, error@)),
{
    let mut r = match step {
        CommitStep::MakeParent => "failed creating parent directory ".to_owned(),
        CommitStep::OpenTemp => "failed opening temp content file ".to_owned(),
        CommitStep::WriteTemp => "failed writing temp content file ".to_owned(),
        CommitStep::StreamTemp => "failed streaming handle content to ".to_owned(),
        CommitStep::OpenSpilled => "failed opening spilled handle file ".to_owned(),
        CommitStep::Copy { .. } => if reading {
            "failed reading spilled handle file ".to_owned()
        } else {
            "failed writing temp content file ".to_owned()
        },
        CommitStep::SyncTemp => "failed fsync temp content file ".to_owned(),
        CommitStep::Rename => "failed committing content file ".to_owned(),
        CommitStep::OpenFile => "failed opening content file for fsync ".to_owned(),
        CommitStep::SyncFile | CommitStep::Done => "failed fsync content file ".to_owned(),
    };
    r.append(place);
    r.append(": ");
    r.append(error);
    Status::new(Code::Internal, r.as_str())
}

/// What else can fail where a handle is written back.
#[derive(Debug, Clone, PartialEq, Eq)]
pub enum FlushFault {
    /// The task that prepares the index did not finish.
    Task { error: String },
    /// The content that was written could not be read for the index.
    Index { error: String },
    /// The content that was written could not be read for the handle.
    Reload { path: String, error: String },
}

impl FlushFault {
    pub fn status(&self) -> (r: Status)
        ensures
            r@ == status_of(
                Code::Internal,
                match *self {
                    FlushFault::Task { error } => "flush indexing join failed: "@ + error@,
                    FlushFault::Index { error } => "index prep from committed file: "@ + error@,
                    FlushFault::Reload { path, error } => "failed reloading handle body from "@
                        + path@ + ": "@ + error@,
                },
            ),
    {
        let r = match self {
            FlushFault::Task { error } => join2("flush indexing join failed: ", error.as_str()),
            FlushFault::Index { error } => join2(
                "index prep from committed file: ",
                error.as_str(),
            ),
            FlushFault::Reload { path, error } => {
                let mut r = "failed reloading handle body from ".to_owned();
                r.append(path.as_str());
                r.append(": ");
                r.append(error.as_str());
                r
            },
        };
        Status::new(Code::Internal, r.as_str())
    }
}

/// A step that failed leaves the temporary file behind, unless it is the one that takes it to its
/// place: then it is removed.
pub fn removes_temp_on_failure(step: CommitStep) -> (r: bool)
    ensures
        r == (step == CommitStep::Rename),
{
    matches!(step, CommitStep::Rename)
}

// ---------------------------------------------------------------------------
// Laws
// ---------------------------------------------------------------------------

/// How far the writing is from its end.
pub open spec fn steps_left(c: CommitView) -> (int, int) {
    (
        c.remaining as int,
        match c.step {
            CommitStep::MakeParent => 8int,
            CommitStep::OpenTemp => 7,
            CommitStep::WriteTemp | CommitStep::StreamTemp | CommitStep::OpenSpilled => 6,
            CommitStep::Copy { .. } => 5,
            CommitStep::SyncTemp => 4,
            CommitStep::Rename => 3,
            CommitStep::OpenFile => 2,
            CommitStep::SyncFile => 1,
            CommitStep::Done => 0,
        },
    )
}

/// The writing comes to an end: each step leaves less to copy, or the same and fewer kinds of
/// steps.
pub proof fn lemma_commit_ends(c: CommitView)
    requires
        c.well_formed(),
        !c.is_final(),
    ensures
        ({
            let (r, s) = steps_left(c);
            let (r2, s2) = steps_left(c.advanced());
            &&& 0 <= r2 <= r
            &&& 0 <= s2
            &&& r2 < r || s2 < s
        }),
{
}

/// The file itself is touched only once its content is whole: when the temporary file takes its
/// place, nothing is left to copy, and all the pieces together were the whole.
pub proof fn lemma_commit_is_whole(c: CommitView, path: Seq<char>, len: u64)
    requires
        c.well_formed(),
        c.source == (SourceView::Spilled { path, len }),
        c.step == CommitStep::Rename || c.step == CommitStep::OpenFile || c.step
            == CommitStep::SyncFile || c.step == CommitStep::Done,
    ensures
        c.remaining == 0,
        copied(len, c.chunk) == len,
{
    lemma_copy_is_whole(len, c.chunk);
}

/// What comes from a handle that was closed is on the disk before it takes the file's place.
pub proof fn lemma_synced_before_rename(c: CommitView)
    requires
        c.well_formed(),
        c.source is Memory || c.source is Spilled,
        c.advanced().step == CommitStep::Rename,
    ensures
        c.step == CommitStep::SyncTemp,
{
}

/// Bytes that came with a request are written to a file of their own, which then takes the place of
/// the old one and is made to last.
pub proof fn lemma_course_of_bytes(c: CommitView)
    requires
        c.source is Bytes,
        c.step == CommitStep::MakeParent,
    ensures
        ({
            let c1 = c.advanced();
            let c2 = c1.advanced();
            let c3 = c2.advanced();
            let c4 = c3.advanced();
            &&& c1.step == CommitStep::WriteTemp
            &&& c2.step == CommitStep::Rename
            &&& c3.step == CommitStep::OpenFile
            &&& c4.step == CommitStep::SyncFile
            &&& c4.advanced().step == CommitStep::Done
            &&& c4.advanced().advanced().step == CommitStep::Done
        }),
{
}

/// A handle that is still open writes itself to a file that was opened for it.
pub proof fn lemma_course_of_stream(c: CommitView)
    requires
        c.source is Stream,
        c.step == CommitStep::MakeParent,
    ensures
        ({
            let c1 = c.advanced();
            let c2 = c1.advanced();
            let c3 = c2.advanced();
            &&& c1.step == CommitStep::OpenTemp
            &&& c2.step == CommitStep::StreamTemp
            &&& c3.step == CommitStep::Rename
            &&& c3.advanced().step == CommitStep::OpenFile
            &&& c3.advanced().advanced().step == CommitStep::SyncFile
            &&& c3.advanced().advanced().advanced().step == CommitStep::Done
        }),
{
}

/// The bytes of a handle that was closed are written, and made to last before they take the place
/// of the old file.
pub proof fn lemma_course_of_memory(c: CommitView)
    requires
        c.source is Memory,
        c.step == CommitStep::MakeParent,
    ensures
        ({
            let c1 = c.advanced();
            let c2 = c1.advanced();
            let c3 = c2.advanced();
            let c4 = c3.advanced();
            &&& c1.step == CommitStep::OpenTemp
            &&& c2.step == CommitStep::WriteTemp
            &&& c3.step == CommitStep::SyncTemp
            &&& c4.step == CommitStep::Rename
            &&& c4.advanced().step == CommitStep::OpenFile
            &&& c4.advanced().advanced().step == CommitStep::SyncFile
            &&& c4.advanced().advanced().advanced().step == CommitStep::Done
        }),
{
}

/// A spilled file is copied piece by piece until nothing of it is left, and only then made to last.
pub proof fn lemma_course_of_spilled(c: CommitView)
    requires
        c.well_formed(),
        c.source is Spilled,
    ensures
        ({
            let d = c.advanced();
            &&& d.source == c.source && d.chunk == c.chunk
            &&& c.step == CommitStep::MakeParent ==> d.step == CommitStep::OpenTemp && d.remaining
                == c.remaining
            &&& c.step == CommitStep::OpenTemp ==> d.step == CommitStep::OpenSpilled && d.remaining
                == c.remaining
            &&& c.step == CommitStep::OpenSpilled ==> d.remaining == c.remaining
            &&& c.step is Copy ==> d.remaining == c.remaining - c.step->bytes && c.step->bytes > 0
            &&& c.step == CommitStep::OpenSpilled || c.step is Copy ==> {
                &&& d.remaining == 0 <==> d.step == CommitStep::SyncTemp
                &&& d.remaining > 0 <==> d.step is Copy
                &&& d.step is Copy ==> 0 < d.step->bytes <= d.remaining
            }
            &&& c.step == CommitStep::SyncTemp ==> d.step == CommitStep::Rename
            &&& c.step == CommitStep::Rename ==> d.step == CommitStep::OpenFile
            &&& c.step == CommitStep::OpenFile ==> d.step == CommitStep::SyncFile
            &&& c.step == CommitStep::SyncFile ==> d.step == CommitStep::Done
        }),
{
}

/// What stopped a commit is told by the step, the place and the cause.
pub proof fn lemma_commit_failures(bytes: usize, reading: bool, place: Seq<char>, error: Seq<char>)
    ensures
        ({
            let told = |step: CommitStep, reading: bool, what: Seq<char>|
                commit_failure_of(step, reading, place, error) == what + place + ": "@ + error;
            &&& told(CommitStep::MakeParent, reading, "failed creating parent directory "@)
            &&& told(CommitStep::OpenTemp, reading, "failed opening temp content file "@)
            &&& told(CommitStep::WriteTemp, reading, "failed writing temp content file "@)
            &&& told(CommitStep::StreamTemp, reading, "failed streaming handle content to "@)
            &&& told(CommitStep::OpenSpilled, reading, "failed opening spilled handle file "@)
            &&& told(CommitStep::Copy { bytes }, true, "failed reading spilled handle file "@)
            &&& told(CommitStep::Copy { bytes }, false, "failed writing temp content file "@)
            &&& told(CommitStep::SyncTemp, reading, "failed fsync temp content file "@)
            &&& told(CommitStep::Rename, reading, "failed committing content file "@)
            &&& told(CommitStep::OpenFile, reading, "failed opening content file for fsync "@)
            &&& told(CommitStep::SyncFile, reading, "failed fsync content file "@)
        }),
{
}

} // verus!
