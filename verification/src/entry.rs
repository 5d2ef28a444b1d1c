//! Directory entries and their classification.

use vstd::prelude::*;

verus! {

/// One entry of a scanned directory, with the metadata that was captured
/// when it was read.
#[derive(Clone, Debug, PartialEq, Eq)]
pub struct Entry {
    /// The full path of the entry.
    pub path: String,
    /// The name under which the entry is shown.
    pub display_name: String,
    /// Whether the entry is a directory.
    pub is_directory: bool,
    /// Whether the entry's permissions forbid writing.
    pub is_readonly: bool,
    /// Whether the platform's hidden attribute is set on the entry; false
    /// where the platform has none or it could not be read.
    pub is_hidden: bool,
}

/// What kind of entry something is.
#[derive(Clone, Copy, Debug, PartialEq, Eq, Structural)]
pub enum Category {
    Directory,
    ReadOnlyFile,
    RegularFile,
}

/// The bit of a platform attribute word that marks an entry as hidden.
pub const HIDDEN_ATTRIBUTE: u32 = 0x2;

/// The category of an entry with the given properties. A directory is a
/// directory whatever its permissions say.
pub open spec fn category_of(is_directory: bool, is_readonly: bool) -> Category {
    if is_directory {
        Category::Directory
    } else if is_readonly {
        Category::ReadOnlyFile
    } else {
        Category::RegularFile
    }
}

/// Whether a name begins with a dot.
pub open spec fn dot_prefixed(name: Seq<char>) -> bool {
    name.len() > 0 && name[0] == '.'
}

/// Whether an entry counts as hidden: its name begins with a dot, or the
/// platform's hidden attribute is set.
pub open spec fn hidden_of(name: Seq<char>, attribute: bool) -> bool {
    dot_prefixed(name) || attribute
}

impl Category {
    /// The configuration key under which the style of this category is kept.
    pub open spec fn key(self) -> Seq<char> {
        match self {
            Category::Directory => "dir"@,
            Category::ReadOnlyFile => "readonly"@,
            Category::RegularFile => "file"@,
        }
    }

    /// Whether entries of this category are listed in the directory group.
    pub open spec fn in_directory_group(self) -> bool {
        self == Category::Directory
    }

    /// Whether entries of this category are listed in the directory group.
    pub fn is_directory(&self) -> (b: bool)
        ensures
            b == self.in_directory_group(),
    {
        match self {
            Category::Directory => true,
            _ => false,
        }
    }
}

impl Entry {
    pub open spec fn category(&self) -> Category {
        category_of(self.is_directory, self.is_readonly)
    }

    pub open spec fn hidden(&self) -> bool {
        hidden_of(self.display_name@, self.is_hidden)
    }
}

/// Whether a platform attribute word has the hidden bit set.
pub fn hidden_attribute_set(attributes: u32) -> (b: bool)
    ensures
        b == (attributes & HIDDEN_ATTRIBUTE != 0),
{
    attributes & HIDDEN_ATTRIBUTE != 0
}

/// Whether an entry is hidden: its name begins with a dot, or the
/// platform's hidden attribute, where one was read, is set.
pub fn is_hidden(display_name: &str, attribute: bool) -> (hidden: bool)
    ensures
        hidden == hidden_of(display_name@, attribute),
{
    if display_name.unicode_len() > 0 && display_name.get_char(0) == '.' {
        return true;
    }
    attribute
}

/// The category of an entry and whether it is hidden.
pub fn classify(entry: &Entry) -> (r: (Category, bool))
    ensures
        r.0 == entry.category(),
        r.1 == entry.hidden(),
{
    let category = if entry.is_directory {
        Category::Directory
    } else if entry.is_readonly {
        Category::ReadOnlyFile
    } else {
        Category::RegularFile
    };
    (category, is_hidden(entry.display_name.as_str(), entry.is_hidden))
}

/// The configuration key of an entry's category: `dir`, `readonly` or `file`.
pub fn determine_file_type(entry: &Entry) -> (key: String)
    ensures
        key@ == entry.category().key(),
{
    let (category, _) = classify(entry);
    match category {
        Category::Directory => String::from_str("dir"),
        Category::ReadOnlyFile => String::from_str("readonly"),
        Category::RegularFile => String::from_str("file"),
    }
}

} // verus!
