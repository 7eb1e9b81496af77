//! The compression worker: the machine of `protocol` for one candidate,
//! together with the compressor that it feeds.

use crate::codec::{xz_consumed, xz_level, Encoder, COMPRESSION_LEVEL};
use crate::name::archive_name_of;
use crate::outcome::{ErrorKind, Outcome};
use crate::path::FilePath;
use crate::protocol::{
    failed, first_action, follows, start, Action, Event, EventView, JobView, Stage,
};
use crate::select::Candidate;
use crate::unique::unique_name;
use vstd::prelude::*;

verus! {

/// What the driver hands back for the action that it performed.
#[derive(Debug, PartialEq, Eq)]
pub enum Reply {
    /// For `Probe`: a file stands at the path.
    Present,
    /// For `Probe`: no file stands at the path, or none can be seen.
    Absent,
    /// For `ReadSource`: the chunk read, empty at the end of the candidate.
    Data(Vec<u8>),
    /// The action was done and there is nothing to hand back.
    Done,
    /// The action failed, for this reason.
    Failed(String),
}

/// What a `Reply` stands for.
pub enum ReplyView {
    Present,
    Absent,
    Data(Seq<u8>),
    Done,
    Failed(Seq<char>),
}

impl View for Reply {
    type V = ReplyView;

    open spec fn view(&self) -> ReplyView {
        match self {
            Reply::Present => ReplyView::Present,
            Reply::Absent => ReplyView::Absent,
            Reply::Data(chunk) => ReplyView::Data(chunk@),
            Reply::Done => ReplyView::Done,
            Reply::Failed(cause) => ReplyView::Failed(cause@),
        }
    }
}

/// Whether `event` is what `reply` comes to at `stage`, once a chunk has
/// gone through the compressor: a chunk with bytes in it is compressed, an
/// empty one closes the compressor or fails to; any other reply is the
/// event of the same name. A chunk comes to no event but where the worker
/// waits for one.
pub open spec fn comes_to(stage: Stage, reply: ReplyView, event: EventView) -> bool {
    match reply {
        ReplyView::Present => event is Present,
        ReplyView::Absent => event is Absent,
        ReplyView::Done => event is Done,
        ReplyView::Failed(cause) => event == EventView::Failed(cause),
        ReplyView::Data(chunk) => stage == Stage::Read && if chunk.len() == 0 {
            event is Closed || event is CloseFailed
        } else {
            event is Encoded
        },
    }
}

/// The work on one candidate. It shares nothing with the work on any other
/// candidate.
pub struct Worker {
    candidate: Candidate,
    originals_dir: String,
    stage: Stage,
    archive: String,
    target: String,
    known: Vec<String>,
    encoder: Option<Encoder>,
}

impl View for Worker {
    type V = JobView;

    closed spec fn view(&self) -> JobView {
        JobView {
            candidate: self.candidate@,
            originals_dir: self.originals_dir@,
            stage: self.stage,
            archive: self.archive@,
            target: self.target@,
            known: self.known.deep_view(),
        }
    }
}

impl Worker {
    /// The worker's compressor: none before the first chunk has come and
    /// none after the last.
    pub closed spec fn compressor(&self) -> Option<Encoder> {
        self.encoder
    }

    /// How many bytes of the candidate the compressor has taken in.
    pub open spec fn taken_in(&self) -> nat {
        match self.compressor() {
            Some(encoder) => xz_consumed(encoder),
            None => 0,
        }
    }

    /// Whether the compressor, if there is one, runs at `COMPRESSION_LEVEL`.
    pub open spec fn at_fixed_level(&self) -> bool {
        match self.compressor() {
            Some(encoder) => xz_level(encoder) == COMPRESSION_LEVEL,
            None => true,
        }
    }

    /// Begins the work on `candidate`, whose original is to end up in
    /// `originals_dir`; returns the worker and its first action. There is
    /// no compressor yet.
    pub fn new(candidate: Candidate, originals_dir: &str) -> (begun: (Worker, Action))
        ensures
            begun.0@ == start(candidate@, originals_dir@),
            begun.1@ == first_action(candidate@),
            begun.0.compressor() is None,
    {
        let archive = archive_name_of(candidate.path().name.as_str());
        let worker = Worker {
            candidate,
            originals_dir: originals_dir.to_owned(),
            stage: Stage::Archive,
            archive,
            target: String::new(),
            known: Vec::new(),
            encoder: None,
        };
        assert(worker.known.deep_view() =~= Seq::<Seq<char>>::empty());
        let action = Action::Probe { path: worker.archive_path() };
        (worker, action)
    }

    /// What the worker waits for.
    pub fn stage(&self) -> (stage: Stage)
        ensures
            stage == self@.stage,
    {
        self.stage
    }

    /// The file that the worker archives.
    pub fn candidate(&self) -> (path: &FilePath)
        ensures
            path@ == self@.candidate,
    {
        self.candidate.path()
    }

    fn archive_path(&self) -> (path: FilePath)
        ensures
            path@ == self@.archive_path(),
    {
        FilePath { dir: self.candidate.path().dir.clone(), name: self.archive.clone() }
    }

    fn target_path(&self) -> (path: FilePath)
        ensures
            path@ == self@.target_path(),
    {
        FilePath { dir: self.originals_dir.clone(), name: self.target.clone() }
    }

    /// Empties the list of the names found taken.
    fn forget(&mut self)
        ensures
            final(self)@ == (JobView { known: Seq::empty(), ..old(self)@ }),
            final(self).compressor() == old(self).compressor(),
    {
        self.known = Vec::new();
        assert(self.known.deep_view() =~= Seq::<Seq<char>>::empty());
    }

    fn fail(&mut self, kind: ErrorKind, cause: String) -> (action: Action)
        ensures
            (final(self)@, action@) == failed(old(self)@, kind, cause@),
            final(self).compressor() == old(self).compressor(),
    {
        self.stage = Stage::Finished;
        Action::Finish { outcome: Outcome::Failure { candidate: self.candidate.path().clone(), kind, cause } }
    }

    fn proceed(&mut self, stage: Stage, action: Action) -> (same: Action)
        ensures
            final(self)@ == old(self)@.at(stage),
            final(self).compressor() == old(self).compressor(),
            same == action,
    {
        self.stage = stage;
        action
    }

    /// Takes in what happened to the pending action and returns the next
    /// one. An event that does not fit the pending action changes nothing
    /// and is answered with `None`. The compressor is left as it is.
    pub fn apply(&mut self, event: Event) -> (action: Option<Action>)
        ensures
            follows(old(self)@, event@, final(self)@, action.deep_view()),
            final(self).compressor() == old(self).compressor(),
    {
        match self.stage {
            Stage::Archive => match event {
                Event::Present => {
                    let ghost seen = self.known.deep_view();
                    let taken = self.archive.clone();
                    self.known.push(taken);
                    assert(self.known.deep_view() =~= seen.push(self.archive@));
                    let wanted = archive_name_of(self.candidate.path().name.as_str());
                    self.archive = unique_name(wanted.as_str(), &self.known);
                    Some(Action::Probe { path: self.archive_path() })
                },
                Event::Absent => {
                    self.forget();
                    self.stage = Stage::Open;
                    Some(Action::OpenSource { path: self.candidate.path().clone() })
                },
                _ => None,
            },
            Stage::Open => match event {
                Event::Failed(cause) => Some(self.fail(ErrorKind::Open, cause)),
                Event::Done => {
                    let path = self.archive_path();
                    Some(self.proceed(Stage::Create, Action::CreateArchive { path }))
                },
                _ => None,
            },
            Stage::Create => match event {
                Event::Failed(cause) => Some(self.fail(ErrorKind::Create, cause)),
                Event::Done => Some(self.proceed(Stage::Read, Action::ReadSource)),
                _ => None,
            },
            Stage::Read => match event {
                Event::Encoded(bytes) => Some(
                    self.proceed(Stage::Write, Action::WriteArchive { bytes }),
                ),
                Event::Closed(bytes) => Some(
                    self.proceed(Stage::Finalize, Action::FinalizeArchive { bytes }),
                ),
                Event::CloseFailed(cause) => Some(self.fail(ErrorKind::Finalize, cause)),
                Event::EncodeFailed(cause) => Some(self.fail(ErrorKind::Compression, cause)),
                Event::Failed(cause) => Some(self.fail(ErrorKind::Compression, cause)),
                _ => None,
            },
            Stage::Write => match event {
                Event::Failed(cause) => Some(self.fail(ErrorKind::Compression, cause)),
                Event::Done => Some(self.proceed(Stage::Read, Action::ReadSource)),
                _ => None,
            },
            Stage::Finalize => match event {
                Event::Failed(cause) => Some(self.fail(ErrorKind::Finalize, cause)),
                Event::Done => {
                    self.forget();
                    self.target = self.candidate.path().name.clone();
                    self.stage = Stage::Target;
                    Some(Action::Probe { path: self.target_path() })
                },
                _ => None,
            },
            Stage::Target => match event {
                Event::Present => {
                    let ghost seen = self.known.deep_view();
                    let taken = self.target.clone();
                    self.known.push(taken);
                    assert(self.known.deep_view() =~= seen.push(self.target@));
                    self.target = unique_name(self.candidate.path().name.as_str(), &self.known);
                    Some(Action::Probe { path: self.target_path() })
                },
                Event::Absent => {
                    self.forget();
                    self.stage = Stage::Move;
                    Some(
                        Action::MoveOriginal {
                            from: self.candidate.path().clone(),
                            to: self.target_path(),
                        },
                    )
                },
                _ => None,
            },
            Stage::Move => match event {
                Event::Failed(cause) => Some(self.fail(ErrorKind::Move, cause)),
                Event::Done => {
                    let outcome = Outcome::Success {
                        candidate: self.candidate.path().clone(),
                        archive: self.archive_path(),
                        relocated: self.target_path(),
                    };
                    Some(self.proceed(Stage::Finished, Action::Finish { outcome }))
                },
                _ => None,
            },
            Stage::Finished => None,
        }
    }

    /// Takes in the driver's reply to the pending action and returns the
    /// next one. A chunk is put through the compressor first, and what
    /// comes of it is the event that the worker applies. A reply that does
    /// not answer the pending action changes nothing and is answered with
    /// `None`.
    ///
    /// Only a chunk that is awaited touches the compressor. One with bytes
    /// in it goes into the compressor, which is started at
    /// `COMPRESSION_LEVEL` if there is none yet, and the answer is
    /// `WriteArchive`; an empty one closes the compressor, which is then
    /// gone.
    pub fn advance(&mut self, reply: Reply) -> (action: Option<Action>)
        ensures
            reply@ is Data && old(self)@.stage != Stage::Read ==> action is None && final(self)@
                == old(self)@,
            !(reply@ is Data) || old(self)@.stage == Stage::Read ==> exists|event: EventView|
                comes_to(old(self)@.stage, reply@, event) && #[trigger] follows(
                    old(self)@,
                    event,
                    final(self)@,
                    action.deep_view(),
                ),
            !(reply@ is Data) || old(self)@.stage != Stage::Read ==> final(self).compressor()
                == old(self).compressor(),
            old(self).at_fixed_level() ==> final(self).at_fixed_level(),
            reply@ matches ReplyView::Data(chunk) ==> (old(self)@.stage == Stage::Read ==> if chunk.len()
                == 0 {
                final(self).compressor() is None
            } else {
                &&& final(self).compressor() is Some
                &&& final(self).taken_in() == old(self).taken_in() + chunk.len()
                &&& final(self)@.stage == Stage::Write
                &&& action matches Some(Action::WriteArchive { .. })
            }),
    {
        let ghost before = self@;
        let ghost asked = reply@;
        let event = match reply {
            Reply::Present => Event::Present,
            Reply::Absent => Event::Absent,
            Reply::Done => Event::Done,
            Reply::Failed(cause) => Event::Failed(cause),
            Reply::Data(chunk) => {
                match self.stage {
                    Stage::Read => {},
                    _ => {
                        return None;
                    },
                }
                let mut encoder = match self.encoder.take() {
                    Some(encoder) => encoder,
                    None => Encoder::new(),
                };
                if chunk.len() == 0 {
                    match encoder.finish() {
                        Ok(bytes) => Event::Closed(bytes),
                        Err(cause) => Event::CloseFailed(cause),
                    }
                } else {
                    let fed = encoder.feed(&chunk);
                    self.encoder = Some(encoder);
                    match fed {
                        Ok(bytes) => Event::Encoded(bytes),
                        Err(cause) => Event::EncodeFailed(cause),
                    }
                }
            },
        };
        assert(self@ == before);
        assert(comes_to(before.stage, asked, event@));
        let ghost happened = event@;
        let action = self.apply(event);
        assert(follows(before, happened, self@, action.deep_view()));
        action
    }
}

} // verus!
