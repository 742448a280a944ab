//! The repository record, the provisioning plan, and the list of records that
//! a discovery walk produces.
use vstd::prelude::*;

use crate::name_policy::{name_ok, storage_suffix, validate_name, InvalidName};

verus! {

/// A repository: its slash-separated name without the storage suffix, and a
/// free-text description.
#[derive(Debug)]
pub struct Repository {
    pub name: String,
    pub description: String,
}

/// Why one entry met during discovery yields no record.
#[derive(Clone, Copy, Debug, PartialEq, Eq, Structural)]
pub enum DiscoveryError {
    /// Not a directory, a symlink, or a name that breaks the naming rules.
    InvalidEntry,
    /// A directory, or an entry of one, could not be read.
    ReadError,
    /// A directory named as a repository that the backend does not open.
    NotARepository,
}

/// What provisioning a record does on disk, relative to the root: create a
/// bare repository at `path` (with any missing namespace directories above
/// it), then write `description` as the whole content of `description_path`.
#[derive(Debug)]
pub struct CreatePlan {
    pub path: String,
    pub description_path: String,
    pub description: String,
}

/// The name of the description file inside a repository's directory.
pub open spec fn description_file() -> Seq<char> {
    seq!['d', 'e', 's', 'c', 'r', 'i', 'p', 't', 'i', 'o', 'n']
}

/// Where the repository named `name` is stored, relative to the root.
pub open spec fn storage_path(name: Seq<char>) -> Seq<char> {
    name + storage_suffix()
}

/// Where the description of the repository stored at `path` is kept.
pub open spec fn description_path(path: Seq<char>) -> Seq<char> {
    path + seq!['/'] + description_file()
}

/// The records among the outcomes of a walk, in the order they came.
pub open spec fn ok_records(items: Seq<Result<Repository, DiscoveryError>>) -> Seq<Repository>
    decreases items.len(),
{
    if items.len() == 0 {
        Seq::empty()
    } else {
        let p = ok_records(items.drop_last());
        match items.last() {
            Ok(r) => p.push(r),
            Err(_) => p,
        }
    }
}

impl Repository {
    pub fn new(name: String, description: String) -> (r: Repository)
        ensures
            r.name == name,
            r.description == description,
    {
        Repository { name, description }
    }

    /// Checks the name and computes where the repository goes. Nothing is
    /// created when the name is refused.
    pub fn create(&self) -> (r: Result<CreatePlan, InvalidName>)
        ensures
            r is Ok <==> name_ok(self.name@),
            r matches Ok(plan) ==> {
                &&& plan.path@ == storage_path(self.name@)
                &&& plan.description_path@ == description_path(storage_path(self.name@))
                &&& plan.description@ == self.description@
            },
    {
        match validate_name(self.name.as_str()) {
            Err(e) => Err(e),
            Ok(()) => {
                proof {
                    reveal_strlit(".git");
                    reveal_strlit("/description");
                }
                assert(".git"@ =~= storage_suffix());
                assert("/description"@ =~= seq!['/'] + description_file());
                let mut path = self.name.clone();
                path.append(".git");
                let mut description_path = path.clone();
                description_path.append("/description");
                assert(description_path@ =~= storage_path(self.name@) + seq!['/']
                    + description_file());
                Ok(CreatePlan { path, description_path, description: self.description.clone() })
            },
        }
    }

    /// The record for a repository directory met during discovery under
    /// `name`: `opened` tells whether the backend opened it, `description` is
    /// the content of its description file where that could be read.
    pub fn read(name: String, opened: bool, description: Option<String>) -> (r: Result<
        Repository,
        DiscoveryError,
    >)
        ensures
            !opened ==> r == Err::<Repository, DiscoveryError>(DiscoveryError::NotARepository),
            opened ==> (r matches Ok(repo) && repo.name == name && (match description {
                Some(d) => repo.description == d,
                None => repo.description@ == Seq::<char>::empty(),
            })),
    {
        if !opened {
            return Err(DiscoveryError::NotARepository);
        }
        let description = match description {
            Some(d) => d,
            None => String::new(),
        };
        Ok(Repository { name, description })
    }
}

/// Keeps the records of a walk and drops the entries that failed.
pub fn list_repositories(items: Vec<Result<Repository, DiscoveryError>>) -> (r: Vec<Repository>)
    ensures
        r@ == ok_records(items@),
{
    let ghost all = items@;
    let total = items.len();
    let mut rest = items;
    let mut out: Vec<Repository> = Vec::new();
    let mut done: usize = 0;
    while rest.len() > 0
        invariant
            done + rest.len() == all.len(),
            all.len() == total,
            rest@ == all.subrange(done as int, all.len() as int),
            out@ == ok_records(all.subrange(0, done as int)),
        decreases rest.len(),
    {
        let item = rest.remove(0);
        assert(all.subrange(0, done + 1).drop_last() =~= all.subrange(0, done as int));
        match item {
            Ok(repo) => out.push(repo),
            Err(_) => {},
        }
        done = done + 1;
        assert(rest@ =~= all.subrange(done as int, all.len() as int));
    }
    assert(all.subrange(0, done as int) =~= all);
    out
}

} // verus!
