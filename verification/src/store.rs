//! Access the content of an AGS file.

pub mod filter;

use vstd::prelude::*;

use crate::error::Error;
use crate::parser;
use crate::store::filter::{evaluate, Filter, Record, RecordModel, Tree};

verus! {

/// Ghost model of an access grant: every field as plain character data.
pub struct GrantModel {
    pub name: Seq<char>,
    pub project: Seq<char>,
    pub encrypted_grant: Seq<char>,
    pub tags: Seq<Seq<char>>,
    pub description: Seq<char>,
    pub notes: Seq<Seq<char>>,
    pub permissions: Seq<Seq<char>>,
    pub metadata: Seq<Seq<char>>,
}

impl GrantModel {
    /// A grant with the given name and project and every other field still
    /// empty.
    pub open spec fn init(name: Seq<char>, project: Seq<char>) -> GrantModel {
        GrantModel {
            name,
            project,
            encrypted_grant: Seq::empty(),
            tags: Seq::empty(),
            description: Seq::empty(),
            notes: Seq::empty(),
            permissions: Seq::empty(),
            metadata: Seq::empty(),
        }
    }

    /// The record a grant presents to filter evaluation: one entry per
    /// recognized field name, single-valued fields as one-element lists.
    pub open spec fn record(self) -> RecordModel {
        seq![
            ("name"@, seq![self.name]),
            ("project"@, seq![self.project]),
            ("tags"@, self.tags),
            ("description"@, seq![self.description]),
            ("notes"@, self.notes),
            ("permissions"@, self.permissions),
            ("metadata"@, self.metadata),
        ]
    }
}

/// The models of a sequence of grants.
pub open spec fn grant_views(grants: Seq<AccessGrant>) -> Seq<GrantModel> {
    grants.map_values(|g: AccessGrant| g@)
}

/// The grants among `grants` that `tree` matches, in order.
pub open spec fn matching(grants: Seq<GrantModel>, tree: Tree) -> Seq<GrantModel>
    decreases grants.len(),
{
    if grants.len() == 0 {
        Seq::empty()
    } else {
        matching(grants.drop_last(), tree) + (if tree.eval(grants.last().record()) {
            seq![grants.last()]
        } else {
            Seq::<GrantModel>::empty()
        })
    }
}

/// An access grant as stored: its user-visible metadata and the encrypted
/// grant payload.
#[derive(Debug)]
pub struct AccessGrant {
    /// The grant's name, from its `## ` heading.
    pub name: String,
    /// The project the grant belongs to, from its `# ` heading.
    pub project: String,
    /// The encrypted grant payload.
    pub encrypted_grant: String,
    /// The grant's tags.
    pub tags: Vec<String>,
    /// The grant's one-line description.
    pub description: String,
    /// The grant's notes, one value per line.
    pub notes: Vec<String>,
    /// The grant's permissions entries.
    pub permissions: Vec<String>,
    /// The grant's metadata entries, one value per key or text line.
    pub metadata: Vec<String>,
}

impl View for AccessGrant {
    type V = GrantModel;

    open spec fn view(&self) -> GrantModel {
        GrantModel {
            name: self.name@,
            project: self.project@,
            encrypted_grant: self.encrypted_grant@,
            tags: filter::views_of(self.tags@),
            description: self.description@,
            notes: filter::views_of(self.notes@),
            permissions: filter::views_of(self.permissions@),
            metadata: filter::views_of(self.metadata@),
        }
    }
}

/// Copies a list of strings.
fn clone_strings(values: &Vec<String>) -> (r: Vec<String>)
    ensures
        r@ == values@,
{
    let mut r: Vec<String> = Vec::new();
    let mut i: usize = 0;
    while i < values.len()
        invariant
            0 <= i <= values.len(),
            r@ == values@.take(i as int),
        decreases values.len() - i,
    {
        r.push(values[i].clone());
        proof {
            assert(r@ =~= values@.take(i + 1));
        }
        i = i + 1;
    }
    proof {
        assert(values@.take(values@.len() as int) =~= values@);
    }
    r
}

impl Clone for AccessGrant {
    /// Copies the grant field by field: the copy models the same grant.
    fn clone(&self) -> (r: Self)
        ensures
            r@ == self@,
    {
        let r = AccessGrant {
            name: self.name.clone(),
            project: self.project.clone(),
            encrypted_grant: self.encrypted_grant.clone(),
            tags: clone_strings(&self.tags),
            description: self.description.clone(),
            notes: clone_strings(&self.notes),
            permissions: clone_strings(&self.permissions),
            metadata: clone_strings(&self.metadata),
        };
        proof {
            assert(r@ == self@);
        }
        r
    }
}

impl AccessGrant {
    /// The record this grant presents to filter evaluation.
    pub fn record(&self) -> (r: Record)
        ensures
            r@ == self@.record(),
    {
        let mut r = Record::new();
        r.add_value("name", self.name.as_str());
        r.add_value("project", self.project.as_str());
        r.add_values("tags", clone_strings(&self.tags));
        r.add_value("description", self.description.as_str());
        r.add_values("notes", clone_strings(&self.notes));
        r.add_values("permissions", clone_strings(&self.permissions));
        r.add_values("metadata", clone_strings(&self.metadata));
        proof {
            assert(r@ =~= self@.record());
        }
        r
    }
}

/// Access grant store based on an AGS text file.
pub struct AGSFile {
    grants: Vec<AccessGrant>,
}

impl AGSFile {
    /// The models of the stored grants, in document order.
    pub closed spec fn grants(&self) -> Seq<GrantModel> {
        grant_views(self.grants@)
    }

    /// Loads a store from the text of an AGS document.
    ///
    /// Returns the store holding the document's grants exactly when the
    /// document fits the AGS grammar (see [`crate::parser`]); rejects it as
    /// an invalid `content` argument otherwise.
    pub fn load(content: &str) -> (r: Result<Self, Error>)
        ensures
            ({
                let outcome = parser::finish(
                    parser::parse_from(parser::init_state(), parser::lines_of(content@)),
                );
                match r {
                    Ok(f) => outcome == Some(f.grants()),
                    Err(e) => outcome is None && (e matches Error::InvalidArguments(a)
                        && a.names@ == "content"@),
                }
            }),
    {
        match parser::parse_document(content) {
            Ok(grants) => Ok(AGSFile { grants }),
            Err(e) => Err(e),
        }
    }

    /// Selects the stored grants that `f` matches, in document order.
    pub fn find_grants(&self, f: &Filter) -> (r: Vec<AccessGrant>)
        ensures
            grant_views(r@) == matching(self.grants(), f@),
    {
        let mut r: Vec<AccessGrant> = Vec::new();
        let mut i: usize = 0;
        proof {
            assert(grant_views(r@) =~= matching(self.grants().take(0), f@));
            assert(self.grants().take(0) =~= grant_views(self.grants@.take(0)));
        }
        while i < self.grants.len()
            invariant
                0 <= i <= self.grants.len(),
                grant_views(r@) == matching(self.grants().take(i as int), f@),
            decreases self.grants.len() - i,
        {
            let g = &self.grants[i];
            let record = g.record();
            proof {
                assert(self.grants().take(i + 1).drop_last() =~= self.grants().take(i as int));
                assert(self.grants().take(i + 1).last() == g@);
            }
            if evaluate(f, &record) {
                let copy = g.clone();
                proof {
                    assert(grant_views(r@.push(copy)) =~= grant_views(r@) + seq![g@]);
                }
                r.push(copy);
            }
            i = i + 1;
        }
        proof {
            assert(self.grants().take(self.grants@.len() as int) =~= self.grants());
        }
        r
    }
}

} // verus!
