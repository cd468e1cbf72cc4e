use vstd::prelude::*;
use vstd::string::StringExecFns;
use crate::vocab::Keyword;

verus! {

/// Which transaction-scoped placeholder a caller expected to find resolved in
/// a transaction report.
#[derive(Clone, Copy, PartialEq, Eq, Structural, Debug)]
pub enum TempName {
    Page,
    Visit,
    VisitId,
}

/// The failures the recording logic can surface.
#[derive(Clone, Copy, PartialEq, Eq, Structural, Debug)]
pub enum ProfileError {
    /// A required schema attribute could not be resolved: the store was not
    /// initialized, or not at the expected version.
    AttributeNotFound(Keyword),
    /// The url lookup returned more than one page entity, which the
    /// uniqueness constraint should make impossible.
    PageNotUnique,
    /// A placeholder id was missing from a transaction report after
    /// submission.
    TempidNotResolved(TempName),
    /// A staged assertion named an attribute entity id that is not in the
    /// schema.
    UnknownAttribute,
    /// A staged assertion would hand a unique attribute's value to a second
    /// entity.
    UniqueConflict,
    /// A staged assertion would give a single-valued attribute a second,
    /// different value on the same entity.
    CardinalityConflict,
    /// A staged assertion's value references an entity id the store never
    /// assigned.
    InvalidRef,
}

/// The text `message` returns for each error.
pub open spec fn error_message(e: ProfileError) -> Seq<char> {
    match e {
        ProfileError::AttributeNotFound(Keyword::FenixProfile) => "expected :fenix/profile"@,
        ProfileError::AttributeNotFound(Keyword::PageUrl) => "expected :page/url"@,
        ProfileError::AttributeNotFound(Keyword::VisitPage) => "expected :visit/page"@,
        ProfileError::AttributeNotFound(Keyword::VisitWhen) => "expected :visit/when"@,
        ProfileError::AttributeNotFound(Keyword::UrlMetaVisit) => "expected :url_meta/visit"@,
        ProfileError::AttributeNotFound(Keyword::UrlMetaTitle) => "expected :url_meta/title"@,
        ProfileError::PageNotUnique => "got more than single 'page' for 'url'"@,
        ProfileError::TempidNotResolved(TempName::Page) => "expected 'page' in tempids"@,
        ProfileError::TempidNotResolved(TempName::Visit) => "expected 'visit' in tempids"@,
        ProfileError::TempidNotResolved(TempName::VisitId) => "expected 'visitid' in tempids"@,
        ProfileError::UnknownAttribute => "transaction asserted an unknown attribute"@,
        ProfileError::UniqueConflict => "unique value already belongs to another entity"@,
        ProfileError::CardinalityConflict => "attribute admits a single value per entity"@,
        ProfileError::InvalidRef => "reference to an unknown entity"@,
    }
}

impl ProfileError {
    /// Human-readable rendering of the error, as handed across the boundary.
    pub fn message(&self) -> (s: String)
        ensures
            s@ == error_message(*self),
    {
        match self {
            ProfileError::AttributeNotFound(Keyword::FenixProfile) => String::from_str("expected :fenix/profile"),
            ProfileError::AttributeNotFound(Keyword::PageUrl) => String::from_str("expected :page/url"),
            ProfileError::AttributeNotFound(Keyword::VisitPage) => String::from_str("expected :visit/page"),
            ProfileError::AttributeNotFound(Keyword::VisitWhen) => String::from_str("expected :visit/when"),
            ProfileError::AttributeNotFound(Keyword::UrlMetaVisit) => String::from_str("expected :url_meta/visit"),
            ProfileError::AttributeNotFound(Keyword::UrlMetaTitle) => String::from_str("expected :url_meta/title"),
            ProfileError::PageNotUnique => String::from_str("got more than single 'page' for 'url'"),
            ProfileError::TempidNotResolved(TempName::Page) => String::from_str("expected 'page' in tempids"),
            ProfileError::TempidNotResolved(TempName::Visit) => String::from_str("expected 'visit' in tempids"),
            ProfileError::TempidNotResolved(TempName::VisitId) => String::from_str("expected 'visitid' in tempids"),
            ProfileError::UnknownAttribute => String::from_str("transaction asserted an unknown attribute"),
            ProfileError::UniqueConflict => String::from_str("unique value already belongs to another entity"),
            ProfileError::CardinalityConflict => String::from_str("attribute admits a single value per entity"),
            ProfileError::InvalidRef => String::from_str("reference to an unknown entity"),
        }
    }
}

} // verus!
