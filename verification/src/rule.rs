//! The declarative description of one cleanup target.

use vstd::prelude::*;

verus! {

/// Mathematical model of a [`CleanupRule`].
pub struct RuleModel {
    /// Glob pattern of the paths the rule is about.
    pub path_pattern: Seq<char>,
    /// Name of the program or feature that owns those paths.
    pub owner_label: Seq<char>,
    /// Grouping key that a user selects against.
    pub category: Seq<char>,
    /// File names to delete inside each matched entry.
    pub explicit_files: Seq<Seq<char>>,
    /// Directory names to delete inside each matched entry.
    pub explicit_dirs: Seq<Seq<char>>,
    /// Delete the matched entry itself if it is a file.
    pub delete_matched_file: bool,
    /// Delete the matched entry itself, recursively, if it is a directory.
    pub delete_matched_dir: bool,
    /// Count the direct children of the matched entry, then delete it whole.
    pub delete_all_children_of_dir: bool,
}

impl RuleModel {
    /// A rule is valid when neither its pattern nor its category is empty.
    pub open spec fn valid(self) -> bool {
        self.path_pattern.len() > 0 && self.category.len() > 0
    }
}

/// Why a rule could not be built.
#[derive(Clone, Copy, Debug, PartialEq, Eq, Structural)]
pub enum RuleError {
    /// The path pattern is the empty string.
    EmptyPattern,
    /// The category is the empty string.
    EmptyCategory,
}

/// What [`CleanupRule::new`] answers for a rule that would have the model
/// `model`.
pub open spec fn checked(model: RuleModel) -> Result<RuleModel, RuleError> {
    if model.path_pattern.len() == 0 {
        Err(RuleError::EmptyPattern)
    } else if model.category.len() == 0 {
        Err(RuleError::EmptyCategory)
    } else {
        Ok(model)
    }
}

/// The views of the strings of `names`, in order.
pub open spec fn names_of(names: Seq<String>) -> Seq<Seq<char>> {
    names.map_values(|name: String| name@)
}

/// One cleanup target: where to look, whom it belongs to, and which of the
/// deletion mechanisms to run against every entry found there.
///
/// The mechanisms are independent of each other; a rule may switch on any
/// subset of them. A rule is immutable once built.
#[derive(Debug, PartialEq, Eq)]
pub struct CleanupRule {
    path_pattern: String,
    owner_label: String,
    category: String,
    explicit_files: Vec<String>,
    explicit_dirs: Vec<String>,
    delete_matched_file: bool,
    delete_matched_dir: bool,
    delete_all_children_of_dir: bool,
}

impl View for CleanupRule {
    type V = RuleModel;

    closed spec fn view(&self) -> RuleModel {
        RuleModel {
            path_pattern: self.path_pattern@,
            owner_label: self.owner_label@,
            category: self.category@,
            explicit_files: names_of(self.explicit_files@),
            explicit_dirs: names_of(self.explicit_dirs@),
            delete_matched_file: self.delete_matched_file,
            delete_matched_dir: self.delete_matched_dir,
            delete_all_children_of_dir: self.delete_all_children_of_dir,
        }
    }
}

impl CleanupRule {
    #[verifier::type_invariant]
    spec fn well_formed(self) -> bool {
        self@.valid()
    }

    /// Builds a rule, or says which of the two mandatory strings is empty.
    pub fn new(
        path_pattern: String,
        owner_label: String,
        category: String,
        explicit_files: Vec<String>,
        explicit_dirs: Vec<String>,
        delete_matched_file: bool,
        delete_matched_dir: bool,
        delete_all_children_of_dir: bool,
    ) -> (built: Result<CleanupRule, RuleError>)
        ensures
            (match built {
                Ok(rule) => Ok(rule@),
                Err(e) => Err(e),
            }) == checked(
                RuleModel {
                    path_pattern: path_pattern@,
                    owner_label: owner_label@,
                    category: category@,
                    explicit_files: names_of(explicit_files@),
                    explicit_dirs: names_of(explicit_dirs@),
                    delete_matched_file,
                    delete_matched_dir,
                    delete_all_children_of_dir,
                },
            ),
    {
        if path_pattern.as_str().is_empty() {
            Err(RuleError::EmptyPattern)
        } else if category.as_str().is_empty() {
            Err(RuleError::EmptyCategory)
        } else {
            Ok(
                CleanupRule {
                    path_pattern,
                    owner_label,
                    category,
                    explicit_files,
                    explicit_dirs,
                    delete_matched_file,
                    delete_matched_dir,
                    delete_all_children_of_dir,
                },
            )
        }
    }

    /// The glob pattern, which is never empty.
    pub fn path_pattern(&self) -> (s: &String)
        ensures
            s@ == self@.path_pattern,
            self@.valid(),
    {
        proof {
            use_type_invariant(self);
        }
        &self.path_pattern
    }

    /// The owner's name.
    pub fn owner_label(&self) -> (s: &String)
        ensures
            s@ == self@.owner_label,
    {
        &self.owner_label
    }

    /// The category, which is never empty.
    pub fn category(&self) -> (s: &String)
        ensures
            s@ == self@.category,
            self@.valid(),
    {
        proof {
            use_type_invariant(self);
        }
        &self.category
    }

    /// The file names deleted inside each matched entry.
    pub fn explicit_files(&self) -> (names: &Vec<String>)
        ensures
            names_of(names@) == self@.explicit_files,
    {
        &self.explicit_files
    }

    /// The directory names deleted inside each matched entry.
    pub fn explicit_dirs(&self) -> (names: &Vec<String>)
        ensures
            names_of(names@) == self@.explicit_dirs,
    {
        &self.explicit_dirs
    }

    /// Whether a matched file is itself deleted.
    pub fn delete_matched_file(&self) -> (b: bool)
        ensures
            b == self@.delete_matched_file,
    {
        self.delete_matched_file
    }

    /// Whether a matched directory is itself deleted.
    pub fn delete_matched_dir(&self) -> (b: bool)
        ensures
            b == self@.delete_matched_dir,
    {
        self.delete_matched_dir
    }

    /// Whether a matched entry is swept: its children counted and the whole
    /// of it deleted.
    pub fn delete_all_children_of_dir(&self) -> (b: bool)
        ensures
            b == self@.delete_all_children_of_dir,
    {
        self.delete_all_children_of_dir
    }
}

} // verus!
