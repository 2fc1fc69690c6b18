//! The people who can be picked, and the stored list they come from.
use vstd::prelude::*;
use vstd::string::*;
use crate::finder::FinderItem;
use crate::text::{contains, contains_text, occurs_at, lower_of, lowercase};

verus! {

/// Command-line options.
#[derive(Clone, Copy, Debug, PartialEq, Eq, Structural)]
pub struct Args {
    /// Print where the stored list lives, and do nothing else.
    pub print_config_location: bool,
}

/// The stored list of known authors.
#[derive(Clone, Debug)]
pub struct Storage {
    pub authors: Vec<StorageAuthor>,
}

/// An author as it is stored.
#[derive(Clone, Debug)]
pub struct StorageAuthor {
    pub name: String,
    pub email: String,
}

/// An author that can be picked; `staged` says whether the commit already
/// credits them.
#[derive(Clone, Debug)]
pub struct Author {
    pub name: String,
    pub email: String,
    pub staged: bool,
}

impl Default for Storage {
    /// The list that stands in for a missing one: a single placeholder author.
    fn default() -> (r: Storage)
        ensures
            r.authors@.len() == 1,
            r.authors@[0].name@ == "Nice Person"@,
            r.authors@[0].email@ == "nice@email"@,
    {
        let mut authors: Vec<StorageAuthor> = Vec::new();
        authors.push(
            StorageAuthor { name: String::from_str("Nice Person"), email: String::from_str("nice@email") },
        );
        Storage { authors }
    }
}

impl PartialEq for StorageAuthor {
    fn eq(&self, other: &StorageAuthor) -> (r: bool) {
        self.name == other.name && self.email == other.email
    }
}

impl vstd::std_specs::cmp::PartialEqSpecImpl for StorageAuthor {
    open spec fn obeys_eq_spec() -> bool {
        true
    }

    open spec fn eq_spec(&self, other: &StorageAuthor) -> bool {
        self.name@ == other.name@ && self.email@ == other.email@
    }
}

impl Eq for StorageAuthor {}

impl PartialEq for Author {
    fn eq(&self, other: &Author) -> (r: bool) {
        self.name == other.name && self.email == other.email && self.staged == other.staged
    }
}

impl vstd::std_specs::cmp::PartialEqSpecImpl for Author {
    open spec fn obeys_eq_spec() -> bool {
        true
    }

    open spec fn eq_spec(&self, other: &Author) -> bool {
        self.name@ == other.name@ && self.email@ == other.email@ && self.staged == other.staged
    }
}

impl Eq for Author {}

impl From<StorageAuthor> for Author {
    fn from(value: StorageAuthor) -> (r: Author) {
        Author { name: value.name, email: value.email, staged: false }
    }
}

impl vstd::std_specs::convert::FromSpecImpl<StorageAuthor> for Author {
    open spec fn obeys_from_spec() -> bool {
        true
    }

    open spec fn from_spec(v: StorageAuthor) -> Author {
        Author { name: v.name, email: v.email, staged: false }
    }
}

impl Author {
    /// An author not yet credited.
    pub fn new(name: &str, email: &str) -> (r: Author)
        ensures
            r.name@ == name@,
            r.email@ == email@,
            !r.staged,
    {
        Author { name: String::from_str(name), email: String::from_str(email), staged: false }
    }

    /// The text that shows the author: the name, a space, the address.
    pub fn to_string(&self) -> (r: String)
        ensures
            r@ == self.name@ + " "@ + self.email@,
    {
        let mut s = self.name.clone();
        s.append(" ");
        s.append(self.email.as_str());
        s
    }
}

impl FinderItem for Author {
    /// A query finds an author whose lower-cased name holds it.
    open spec fn found_by(&self, query: Seq<char>) -> bool {
        contains_text(lower_of(self.name@), query)
    }

    open spec fn starts_staged(&self) -> bool {
        self.staged
    }

    open spec fn label(&self) -> Seq<char> {
        self.name@ + " "@ + self.email@
    }

    open spec fn same_as(&self, other: &Author) -> bool {
        self.name@ == other.name@ && self.email@ == other.email@ && self.staged == other.staged
    }

    proof fn lemma_empty_query_finds(&self) {
        assert(lower_of(self.name@).subrange(0, 0) =~= Seq::<char>::empty());
        assert(occurs_at(lower_of(self.name@), Seq::empty(), 0));
    }

    fn search_include(&self, search: &str) -> (r: bool) {
        let name = lowercase(self.name.as_str());
        contains(name.as_str(), search)
    }

    fn initial_seleted(&self) -> (r: bool) {
        self.staged
    }

    fn display(&self) -> (r: String) {
        self.to_string()
    }

    fn same_item(&self, other: &Author) -> (r: bool) {
        self.name == other.name && self.email == other.email && self.staged == other.staged
    }
}

} // verus!
