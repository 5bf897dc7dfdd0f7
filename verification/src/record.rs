//! The plain-value form of a cookie as it is handed out of the jar.

use vstd::prelude::*;

verus! {

/// One cookie as delivered by a matching query: just the pieces needed to
/// build a `Cookie` request header, as plain strings.
pub struct CookieRecord {
    /// The cookie's name.
    pub name: String,
    /// The cookie's value.
    pub value: String,
    /// The path the cookie is scoped to.
    pub path: String,
}

/// The mathematical view of a [`CookieRecord`]: each field as a `Seq<char>`.
pub ghost struct CookieRecordView {
    /// View of the name.
    pub name: Seq<char>,
    /// View of the value.
    pub value: Seq<char>,
    /// View of the path.
    pub path: Seq<char>,
}

impl View for CookieRecord {
    type V = CookieRecordView;

    open spec fn view(&self) -> CookieRecordView {
        CookieRecordView { name: self.name@, value: self.value@, path: self.path@ }
    }
}

/// The element-wise view of a sequence of records.
pub open spec fn views(rs: Seq<CookieRecord>) -> Seq<CookieRecordView> {
    rs.map_values(|r: CookieRecord| r@)
}

} // verus!
