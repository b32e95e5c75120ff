use vstd::prelude::*;

use crate::errors::{StoreError, StoreErrorV};
use crate::git_driver;
use crate::paths::{join_paths, path_join};

verus! {

/// The seconds since the epoch encoded by an RFC 3339 timestamp, or `None`
/// where the text is not a valid RFC 3339 date-and-time.  This names the
/// result of chrono's `DateTime::parse_from_rfc3339` composed with
/// `DateTime::timestamp`, which depends on the text alone.
pub uninterp spec fn rfc3339_sec(s: Seq<char>) -> Option<i64>;

/// Relies on chrono's `DateTime::parse_from_rfc3339` and
/// `DateTime::timestamp`: both are pure functions of the text alone, so the
/// composition is named by [`rfc3339_sec`].
#[verifier::external_body]
pub(crate) fn parse_rfc3339_seconds(s: &str) -> (r: Option<i64>)
    ensures
        r == rfc3339_sec(s@),
{
    match chrono::DateTime::parse_from_rfc3339(s) {
        Ok(t) => Some(t.timestamp()),
        Err(_) => None,
    }
}

/// Mathematical image of a [`SnapshotType`].
#[verifier::ext_equal]
pub enum SnapshotTypeV {
    Etna { branch: Seq<char> },
    Script { name: Seq<char> },
    Workload { name: Seq<char>, language: Seq<char> },
    Experiment { time: Seq<char> },
}

/// What a snapshot is a snapshot of: the shared toolchain checkout, one
/// named driver script, one workload's files, or a whole experiment
/// directory at a wall-clock instant.  The `time` of the `Experiment`
/// variant is an RFC 3339 timestamp used only for recency ordering; it is
/// never an input of the content hash.
#[derive(Debug, PartialEq, Eq)]
pub enum SnapshotType {
    Etna { branch: String },
    Script { name: String },
    Workload { name: String, language: String },
    Experiment { time: String },
}

impl View for SnapshotType {
    type V = SnapshotTypeV;

    open spec fn view(&self) -> SnapshotTypeV {
        match self {
            SnapshotType::Etna { branch } => SnapshotTypeV::Etna { branch: branch@ },
            SnapshotType::Script { name } => SnapshotTypeV::Script { name: name@ },
            SnapshotType::Workload { name, language } => SnapshotTypeV::Workload {
                name: name@,
                language: language@,
            },
            SnapshotType::Experiment { time } => SnapshotTypeV::Experiment { time: time@ },
        }
    }
}

impl SnapshotType {
    /// Whether this is a whole-experiment snapshot.
    pub fn is_experiment(&self) -> (r: bool)
        ensures
            r == (self@ is Experiment),
    {
        matches!(self, SnapshotType::Experiment { .. })
    }

    /// The recency timestamp in seconds since the epoch: `None` for every
    /// kind but `Experiment`, and for an `Experiment` whose text is not
    /// valid RFC 3339.  Total where the original unwrapped the parse.
    pub fn time(&self) -> (r: Option<i64>)
        ensures
            r == self@.spec_time(),
    {
        match self {
            SnapshotType::Experiment { time } => parse_rfc3339_seconds(time.as_str()),
            _ => None,
        }
    }

    /// The name carried by the kind: the script's or the workload's.  The
    /// toolchain and whole-experiment kinds carry none, and erroring here is
    /// how the original's partial accessor is made total.
    pub fn name(&self) -> (r: Result<String, StoreError>)
        ensures
            match self@ {
                SnapshotTypeV::Script { name } => r matches Ok(n) && n@ == name,
                SnapshotTypeV::Workload { name, language: _ } => r matches Ok(n) && n@ == name,
                _ => r matches Err(e) && e@ == StoreErrorV::NameNotSupported,
            },
    {
        match self {
            SnapshotType::Script { name } => Ok(name.clone()),
            SnapshotType::Workload { name, language: _ } => Ok(name.clone()),
            _ => Err(StoreError::NameNotSupported),
        }
    }

    /// Structural equality of kind and carried fields.
    pub fn same_as(&self, other: &SnapshotType) -> (r: bool)
        ensures
            r == (self@ == other@),
    {
        let r = match (self, other) {
            (SnapshotType::Etna { branch: a }, SnapshotType::Etna { branch: b }) => *a == *b,
            (SnapshotType::Script { name: a }, SnapshotType::Script { name: b }) => *a == *b,
            (
                SnapshotType::Workload { name: a, language: la },
                SnapshotType::Workload { name: b, language: lb },
            ) => *a == *b && *la == *lb,
            (SnapshotType::Experiment { time: a }, SnapshotType::Experiment { time: b }) => *a
                == *b,
            _ => false,
        };
        proof {
            if r {
                assert(self@ =~= other@);
            }
        }
        r
    }
}

impl SnapshotTypeV {
    /// The recency timestamp this kind orders by, if any.
    pub open spec fn spec_time(self) -> Option<i64> {
        match self {
            SnapshotTypeV::Experiment { time } => rfc3339_sec(time),
            _ => None,
        }
    }
}

impl Clone for SnapshotType {
    /// A copy carrying the same fields.
    fn clone(&self) -> (r: Self)
        ensures
            r@ == self@,
    {
        match self {
            SnapshotType::Etna { branch } => SnapshotType::Etna { branch: branch.clone() },
            SnapshotType::Script { name } => SnapshotType::Script { name: name.clone() },
            SnapshotType::Workload { name, language } => SnapshotType::Workload {
                name: name.clone(),
                language: language.clone(),
            },
            SnapshotType::Experiment { time } => SnapshotType::Experiment { time: time.clone() },
        }
    }
}

/// Mathematical image of a [`Snapshot`].
#[verifier::ext_equal]
pub struct SnapshotV {
    pub path: Seq<char>,
    pub typ: SnapshotTypeV,
    pub hash: Seq<char>,
}

/// A content-addressed fact: the content rooted at `path`, interpreted as
/// `typ`, hashed to `hash`.  Equality is over the full structural tuple.
#[derive(Debug, PartialEq, Eq)]
pub struct Snapshot {
    pub path: String,
    pub typ: SnapshotType,
    pub hash: String,
}

impl View for Snapshot {
    type V = SnapshotV;

    open spec fn view(&self) -> SnapshotV {
        SnapshotV { path: self.path@, typ: self.typ@, hash: self.hash@ }
    }
}

impl Clone for Snapshot {
    /// A copy of the same structural tuple.
    fn clone(&self) -> (r: Self)
        ensures
            r@ == self@,
    {
        let r = Snapshot { path: self.path.clone(), typ: self.typ.clone(), hash: self.hash.clone() };
        proof {
            assert(r@ =~= self@);
        }
        r
    }
}

impl Snapshot {
    /// Structural equality on the full `(path, typ, hash)` tuple.
    pub fn same_as(&self, other: &Snapshot) -> (r: bool)
        ensures
            r == (self@ == other@),
    {
        let r = self.path == other.path && self.typ.same_as(&other.typ) && self.hash == other.hash;
        proof {
            if r {
                assert(self@ =~= other@);
            }
        }
        r
    }

    /// A snapshot of the current head commit of the repository at
    /// `repo_path`.  Fails only where the content hasher cannot reach or
    /// read the repository; nothing is promised of the hash itself.
    pub fn head(repo_path: &String, typ: SnapshotType) -> (r: Result<Snapshot, StoreError>)
        ensures
            match r {
                Ok(s) => s.path@ == repo_path@ && s.typ@ == typ@,
                Err(e) => e@ == StoreErrorV::HashUnavailable,
            },
    {
        match git_driver::head_hash(repo_path.as_str()) {
            Ok(hash) => Ok(Snapshot { path: repo_path.clone(), typ, hash }),
            Err(_) => Err(StoreError::HashUnavailable),
        }
    }

    /// A snapshot of the content under `index_glob` inside the repository at
    /// `repo_path`.  Fails only where the content hasher cannot reach or
    /// read that content; nothing is promised of the hash itself.
    pub fn take(repo_path: &String, index_glob: &String, typ: SnapshotType) -> (r: Result<
        Snapshot,
        StoreError,
    >)
        ensures
            match r {
                Ok(s) => s.path@ == path_join(repo_path@, index_glob@) && s.typ@ == typ@,
                Err(e) => e@ == StoreErrorV::HashUnavailable,
            },
    {
        match git_driver::tree_hash(repo_path.as_str(), index_glob.as_str()) {
            Ok(hash) => Ok(
                Snapshot { path: join_paths(repo_path.as_str(), index_glob.as_str()), typ, hash },
            ),
            Err(_) => Err(StoreError::HashUnavailable),
        }
    }
}

} // verus!
