use vstd::prelude::*;

verus! {

/// A package identity: its name, and optionally a publisher and a version.
///
/// The version is kept as the text that `fmri::Version` prints (for example
/// `@2.3.2,5.11-2022.0.0.1:20220126T070330Z`); its order is the one that
/// `fmri::Version` defines.
#[derive(Debug, Clone, PartialEq, Eq)]
pub struct Fmri {
    pub name: String,
    pub publisher: Option<String>,
    pub version: Option<String>,
}

/// The outcome of comparing two version texts with `fmri::Version`'s order:
/// `Some(-1)`, `Some(0)` or `Some(1)`, or `None` where one text is no version.
pub uninterp spec fn version_order(a: Seq<char>, b: Seq<char>) -> Option<i8>;

/// The comparison of two version texts that the library works with: a text
/// that does not parse compares equal to everything.
pub open spec fn version_cmp(a: Seq<char>, b: Seq<char>) -> int {
    match version_order(a, b) {
        Some(x) => x as int,
        None => 0,
    }
}

/// Relies on `fmri::Version::new` to parse both texts and on `Ord for
/// fmri::Version` to compare them; the result depends on the two texts alone.
/// It is `None` exactly where one of the texts does not parse, and comparing
/// the other way round gives the opposite result (`Ord` is antisymmetric).
#[verifier::external_body]
fn compare_version_texts(a: &String, b: &String) -> (r: Option<i8>)
    ensures
        r == version_order(a@, b@),
        r matches Some(x) ==> -1 <= x <= 1,
        r is None <==> version_order(a@, a@) is None || version_order(b@, b@) is None,
        r matches Some(x) ==> version_order(b@, a@) == Some((-x) as i8),
        r is None ==> version_order(b@, a@) is None,
{
    match (fmri::Version::new(a.clone()), fmri::Version::new(b.clone())) {
        (Ok(x), Ok(y)) => Some(match x.cmp(&y) {
            std::cmp::Ordering::Less => -1,
            std::cmp::Ordering::Equal => 0,
            std::cmp::Ordering::Greater => 1,
        }),
        _ => None,
    }
}

/// Compares two version texts: negative, zero or positive as `a` is lower than,
/// equal to or higher than `b`.
pub fn compare_versions(a: &String, b: &String) -> (r: i8)
    ensures
        r as int == version_cmp(a@, b@),
        -1 <= r <= 1,
        version_cmp(b@, a@) == -version_cmp(a@, b@),
{
    match compare_version_texts(a, b) {
        Some(x) => x,
        None => 0,
    }
}

/// Whether the text is a version that `fmri::Version` can parse.
pub open spec fn valid_version(v: Seq<char>) -> bool {
    version_order(v, v) is Some
}

/// Whether the text is a version that `fmri::Version` can parse.
pub fn version_is_valid(v: &String) -> (r: bool)
    ensures
        r == valid_version(v@),
{
    compare_version_texts(v, v).is_some()
}

pub fn copy_string(s: &String) -> (r: String)
    ensures
        r == *s,
{
    s.clone()
}

pub fn copy_opt_string(s: &Option<String>) -> (r: Option<String>)
    ensures
        r == *s,
{
    match s {
        Some(x) => Some(x.clone()),
        None => None,
    }
}

pub fn strings_equal(a: &String, b: &String) -> (r: bool)
    ensures
        r == (a@ == b@),
{
    String::eq(a, b)
}

/// Two optional texts hold the same characters, or are both absent.
pub open spec fn same_opt_text(a: Option<String>, b: Option<String>) -> bool {
    match (a, b) {
        (Some(x), Some(y)) => x@ == y@,
        (None, None) => true,
        _ => false,
    }
}

fn opt_strings_equal(a: &Option<String>, b: &Option<String>) -> (r: bool)
    ensures
        r == same_opt_text(*a, *b),
{
    match (a, b) {
        (Some(x), Some(y)) => String::eq(x, y),
        (None, None) => true,
        _ => false,
    }
}

impl Fmri {
    /// Both identities hold the same name, publisher and version.
    pub open spec fn same(&self, other: Fmri) -> bool {
        &&& self.name@ == other.name@
        &&& same_opt_text(self.publisher, other.publisher)
        &&& same_opt_text(self.version, other.version)
    }

    /// Whether the two identities hold the same name, publisher and version.
    pub fn same_as(&self, other: &Fmri) -> (r: bool)
        ensures
            r == self.same(*other),
    {
        strings_equal(&self.name, &other.name) && opt_strings_equal(&self.publisher, &other.publisher)
            && opt_strings_equal(&self.version, &other.version)
    }

    /// Builds an identity from its parts.
    pub fn new(name: String, publisher: Option<String>, version: Option<String>) -> (r: Fmri)
        ensures
            r.name == name,
            r.publisher == publisher,
            r.version == version,
    {
        Fmri { name, publisher, version }
    }

    /// A copy of this identity.
    pub fn copy(&self) -> (r: Fmri)
        ensures
            r == *self,
    {
        Fmri {
            name: copy_string(&self.name),
            publisher: copy_opt_string(&self.publisher),
            version: copy_opt_string(&self.version),
        }
    }

    /// Whether both identities name the same package, whatever their versions.
    pub fn package_name_eq(&self, other: &Fmri) -> (r: bool)
        ensures
            r == (self.name@ == other.name@),
    {
        strings_equal(&self.name, &other.name)
    }
}

} // verus!
