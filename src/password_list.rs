use vstd::prelude::*;

verus! {

/// A row of the credential list shown to the user: a label and the record's
/// encrypted value as base64 text.
pub struct PasswordListItem {
    pub label: String,
    pub encrypted_value: String,
}

impl From<(String, String)> for PasswordListItem {
    fn from(value: (String, String)) -> (r: Self) {
        PasswordListItem { label: value.0, encrypted_value: value.1 }
    }
}

impl vstd::std_specs::convert::FromSpecImpl<(String, String)> for PasswordListItem {
    open spec fn obeys_from_spec() -> bool {
        true
    }

    open spec fn from_spec(v: (String, String)) -> Self {
        PasswordListItem { label: v.0, encrypted_value: v.1 }
    }
}

} // verus!
