use vstd::prelude::*;

use crate::errors::FetchError;

verus! {

/// The spellings of the unpack flag that mean "do not unpack". Any other present
/// value of the variable means "unpack".
pub open spec fn spec_is_false_word(s: Seq<char>) -> bool {
    ||| s == "false"@
    ||| s == "FALSE"@
    ||| s == "False"@
    ||| s == "0"@
    ||| s == "no"@
    ||| s == "n"@
}

/// Parses the raw text of the unpack flag: a handful of spellings mean `false`,
/// every other value means `true`.
pub fn parse_env_str(s: String) -> (unpack: bool)
    ensures
        unpack == !spec_is_false_word(s@),
{
    let negative = s == "false".to_owned() || s == "FALSE".to_owned() || s == "False".to_owned()
        || s == "0".to_owned() || s == "no".to_owned() || s == "n".to_owned();
    !negative
}

/// Resolves the unpack flag from an optional environment value: an entirely absent
/// variable defaults to not unpacking.
pub fn unpack_requested(value: Option<String>) -> (unpack: bool)
    ensures
        unpack == (match value {
            Option::Some(s) => !spec_is_false_word(s@),
            Option::None => false,
        }),
{
    match value {
        Option::Some(s) => parse_env_str(s),
        Option::None => false,
    }
}

/// Checks a required configuration input: an absent value is a fatal
/// configuration error naming the missing input.
pub fn require_config(value: Option<String>, name: &str) -> (r: Result<String, FetchError>)
    ensures
        value matches Some(s) ==> r == Ok::<String, FetchError>(s),
        value is None ==> (r matches Err(e) && e matches FetchError::ConfigurationError(m)
            && m@ == name@),
{
    match value {
        Option::Some(s) => Ok(s),
        Option::None => Err(FetchError::ConfigurationError(name.to_owned())),
    }
}

} // verus!
