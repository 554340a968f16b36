use vstd::prelude::*;

verus! {

/// The name of a table or of a column.
///
/// A name is either a compile-time constant or text owned at runtime; two
/// names are equal exactly when their text is equal, whatever their storage.
#[derive(Debug)]
pub enum Name {
    Static(&'static str),
    Dynamic(String),
}

/// The name of a table.
pub type TableName = Name;

/// The name of a column.
pub type ColumnName = Name;

/// The name of a table and the name of a column inside that table.
pub type TableColumn = (TableName, ColumnName);

impl View for Name {
    type V = Seq<char>;

    open spec fn view(&self) -> Seq<char> {
        match self {
            Name::Static(s) => s@,
            Name::Dynamic(s) => s@,
        }
    }
}

/// Relies on `<str as PartialEq>::eq`: two string slices are equal exactly
/// when they hold the same characters.
#[verifier::external_body]
fn str_eq(a: &str, b: &str) -> (r: bool)
    ensures
        r == (a@ == b@),
{
    a == b
}

/// Relies on `<str as Ord>::cmp`: string slices are ordered
/// lexicographically by their bytes, which orders UTF-8 text by character
/// code.
#[verifier::external_body]
fn str_cmp(a: &str, b: &str) -> (r: core::cmp::Ordering)
    ensures
        r == lex_cmp(a@, b@),
{
    a.cmp(b)
}

/// Lexicographic order of two texts by character code.
pub open spec fn lex_cmp(a: Seq<char>, b: Seq<char>) -> core::cmp::Ordering
    decreases a.len(),
{
    if a.len() == 0 {
        if b.len() == 0 {
            core::cmp::Ordering::Equal
        } else {
            core::cmp::Ordering::Less
        }
    } else if b.len() == 0 {
        core::cmp::Ordering::Greater
    } else if (a[0] as u32) < (b[0] as u32) {
        core::cmp::Ordering::Less
    } else if (a[0] as u32) > (b[0] as u32) {
        core::cmp::Ordering::Greater
    } else {
        lex_cmp(a.drop_first(), b.drop_first())
    }
}

impl Name {
    /// The text of this name.
    pub fn as_str(&self) -> (r: &str)
        ensures
            r@ == self@,
    {
        match self {
            Name::Static(s) => s,
            Name::Dynamic(s) => s.as_str(),
        }
    }

    /// Whether two names hold the same text.
    pub fn same_text(&self, other: &Name) -> (r: bool)
        ensures
            r == (self@ == other@),
    {
        str_eq(self.as_str(), other.as_str())
    }

    /// An owned copy of the text of this name.
    pub fn to_text(&self) -> (r: String)
        ensures
            r@ == self@,
    {
        self.as_str().to_owned()
    }
}

impl Clone for Name {
    fn clone(&self) -> (r: Self)
        ensures
            r == *self,
    {
        match self {
            Name::Static(s) => Name::Static(s),
            Name::Dynamic(s) => Name::Dynamic(s.clone()),
        }
    }
}

impl PartialEq for Name {
    fn eq(&self, other: &Name) -> (r: bool) {
        self.same_text(other)
    }
}

impl vstd::std_specs::cmp::PartialEqSpecImpl for Name {
    open spec fn obeys_eq_spec() -> bool {
        true
    }

    open spec fn eq_spec(&self, other: &Name) -> bool {
        self@ == other@
    }
}

impl Eq for Name {
}

impl core::hash::Hash for Name {
    /// Relies on `<str as Hash>::hash`: the name's text is hashed, so names
    /// that are equal hash alike whatever their storage.
    #[verifier::external_body]
    fn hash<H: core::hash::Hasher>(&self, state: &mut H) {
        self.as_str().hash(state)
    }
}

impl PartialOrd for Name {
    fn partial_cmp(&self, other: &Name) -> (r: Option<core::cmp::Ordering>) {
        Some(str_cmp(self.as_str(), other.as_str()))
    }
}

impl vstd::std_specs::cmp::PartialOrdSpecImpl for Name {
    open spec fn obeys_partial_cmp_spec() -> bool {
        true
    }

    open spec fn partial_cmp_spec(&self, other: &Name) -> Option<core::cmp::Ordering> {
        Some(lex_cmp(self@, other@))
    }
}

impl From<&'static str> for Name {
    fn from(value: &'static str) -> (r: Name) {
        Name::Static(value)
    }
}

impl vstd::std_specs::convert::FromSpecImpl<&'static str> for Name {
    open spec fn obeys_from_spec() -> bool {
        true
    }

    open spec fn from_spec(v: &'static str) -> Name {
        Name::Static(v)
    }
}

impl From<String> for Name {
    fn from(value: String) -> (r: Name) {
        Name::Dynamic(value)
    }
}

impl vstd::std_specs::convert::FromSpecImpl<String> for Name {
    open spec fn obeys_from_spec() -> bool {
        true
    }

    open spec fn from_spec(v: String) -> Name {
        Name::Dynamic(v)
    }
}

/// A copy of a table-column pair.
pub fn clone_table_column(tc: &TableColumn) -> (r: TableColumn)
    ensures
        r == *tc,
{
    (tc.0.clone(), tc.1.clone())
}

} // verus!
