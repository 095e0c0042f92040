use vstd::prelude::*;

verus! {

/// `url::ParseError` is the error type of `Website::from_path`; the current
/// normalization never fails, so no value of it is ever produced here.
#[verifier::external_type_specification]
#[verifier::external_body]
pub struct ExParseError(url::ParseError);

/// A normalized identifier for a destination that can be blocked.
/// Equality is exact on the normalized form.
#[derive(Debug)]
pub struct Website {
    url: String,
}

impl View for Website {
    type V = Seq<char>;

    closed spec fn view(&self) -> Seq<char> {
        self.url@
    }
}

impl Website {
    pub fn from_path(path: &str) -> (r: Result<Self, url::ParseError>)
        ensures
            r matches Ok(w) && w@ == path@,
    {
        Ok(Website { url: path.to_owned() })
    }

    pub fn get_url_str(&self) -> (r: &str)
        ensures
            r@ == self@,
    {
        self.url.as_str()
    }
}

impl Clone for Website {
    fn clone(&self) -> (r: Self)
        ensures
            r == *self,
    {
        Website { url: self.url.clone() }
    }
}

impl PartialEq for Website {
    fn eq(&self, other: &Self) -> bool {
        self.url == other.url
    }
}

impl vstd::std_specs::cmp::PartialEqSpecImpl for Website {
    open spec fn obeys_eq_spec() -> bool {
        true
    }

    open spec fn eq_spec(&self, other: &Website) -> bool {
        self@ == other@
    }
}

} // verus!
