//! The sites that the tool searches, and the dispatch on a provider's name.

pub mod animeonsen;
pub mod yugen;

use vstd::prelude::*;
use crate::text::str_eq;

verus! {

/// The names of the providers, the default first.
pub const PROVIDERS: [&'static str; 2] = ["animeonsen", "yugen"];

/// A provider that the tool knows.
#[derive(Debug, Clone, Copy, PartialEq, Eq)]
pub enum Provider {
    AnimeOnsen,
    Yugen,
}

/// The provider that `name` names.
pub open spec fn provider_named(name: Seq<char>) -> Option<Provider> {
    if name == "animeonsen"@ {
        Some(Provider::AnimeOnsen)
    } else if name == "yugen"@ {
        Some(Provider::Yugen)
    } else {
        None
    }
}

/// The name of a provider.
pub open spec fn provider_name(p: Provider) -> Seq<char> {
    match p {
        Provider::AnimeOnsen => "animeonsen"@,
        Provider::Yugen => "yugen"@,
    }
}

/// A provider's name names that provider.
pub proof fn lemma_provider_name_round_trip(p: Provider)
    ensures
        provider_named(provider_name(p)) == Some(p),
{
    reveal_strlit("yugen");
    reveal_strlit("animeonsen");
    assert("yugen"@.len() == 5 && "animeonsen"@.len() == 10);
}

/// Why a provider could not answer.
#[derive(Debug)]
pub enum ProviderError {
    /// No provider has this name.
    UnknownProvider(String),
    /// The site answered with something that the provider cannot use; the text
    /// says what.
    Unexpected(String),
    /// A number in the site's answer does not parse.
    InvalidNumber(String),
    /// The site's answer is not valid UTF-8 where text was expected.
    InvalidUtf8,
    /// A pattern that the provider uses does not compile.
    InvalidPattern,
}

/// The model of a provider error.
pub enum ProviderErrorView {
    UnknownProvider(Seq<char>),
    Unexpected(Seq<char>),
    InvalidNumber(Seq<char>),
    InvalidUtf8,
    InvalidPattern,
}

impl View for ProviderError {
    type V = ProviderErrorView;

    open spec fn view(&self) -> ProviderErrorView {
        match self {
            ProviderError::UnknownProvider(n) => ProviderErrorView::UnknownProvider(n@),
            ProviderError::Unexpected(m) => ProviderErrorView::Unexpected(m@),
            ProviderError::InvalidNumber(n) => ProviderErrorView::InvalidNumber(n@),
            ProviderError::InvalidUtf8 => ProviderErrorView::InvalidUtf8,
            ProviderError::InvalidPattern => ProviderErrorView::InvalidPattern,
        }
    }
}

/// The model of a provider's result.
pub open spec fn res_view<T: View>(r: Result<T, ProviderError>) -> Result<T::V, ProviderErrorView> {
    match r {
        Ok(v) => Ok(v@),
        Err(e) => Err(e@),
    }
}

impl Provider {
    /// The provider with this name; an error that names it otherwise.
    pub fn from_name(name: &str) -> (r: Result<Provider, ProviderError>)
        ensures
            provider_named(name@) matches Some(p) ==> r == Ok::<Provider, ProviderError>(p),
            provider_named(name@) is None ==> (r matches Err(ProviderError::UnknownProvider(n))
                && n@ == name@),
    {
        if str_eq(name, "animeonsen") {
            Ok(Provider::AnimeOnsen)
        } else if str_eq(name, "yugen") {
            Ok(Provider::Yugen)
        } else {
            Err(ProviderError::UnknownProvider(String::from_str(name)))
        }
    }

    /// The name of the provider.
    pub fn name(&self) -> (r: &'static str)
        ensures
            r@ == provider_name(*self),
    {
        match self {
            Provider::AnimeOnsen => "animeonsen",
            Provider::Yugen => "yugen",
        }
    }
}

} // verus!
