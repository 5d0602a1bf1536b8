//! Credential-store file paths and profile-name hygiene.

use vstd::prelude::*;

use crate::errors::ConfigError;
use crate::text;

verus! {

/// A usable profile name: non-empty, no path separators, no
/// parent-directory step, no NUL.
pub open spec fn profile_name_ok(n: Seq<char>) -> bool {
    &&& n.len() > 0
    &&& !n.contains('/')
    &&& !n.contains('\\')
    &&& !text::contains_seq(n, seq!['.', '.'])
    &&& !n.contains('\u{0}')
}

/// The store account a profile maps to: the profile's own name, or
/// `default` where none is selected.
pub fn account_name(profile: Option<&String>) -> (r: String)
    ensures
        r@ == match profile {
            Some(p) => p@,
            None => "default"@,
        },
{
    match profile {
        Some(p) => p.clone(),
        None => String::from_str("default"),
    }
}

/// Reject profile names that could escape the token directory or be
/// unusable as file names.
pub fn validate_profile_name(name: &str) -> (r: Result<(), ConfigError>)
    ensures
        r is Ok <==> profile_name_ok(name@),
        r matches Err(e) ==> e matches ConfigError::InvalidProfileName { name: n } && n@ == name@,
{
    proof {
        reveal_strlit("..");
        assert(".."@ =~= seq!['.', '.']);
    }
    let ok = name.unicode_len() > 0 && !text::contains_char(name, '/') && !text::contains_char(
        name,
        '\\',
    ) && !text::contains_str(name, "..") && !text::contains_char(name, '\u{0}');
    if ok {
        Ok(())
    } else {
        Err(ConfigError::InvalidProfileName { name: String::from_str(name) })
    }
}

/// Interpret a token file's content: surrounding whitespace is trimmed
/// away, and a file holding nothing else holds no token.
pub fn token_file_contents(content: &str) -> (r: Option<String>)
    ensures
        match r {
            Some(t) => t@ == text::trim_spec(content@) && t@.len() > 0,
            None => text::trim_spec(content@).len() == 0,
        },
{
    let t = text::trim(content);
    if t.as_str().unicode_len() > 0 {
        Some(t)
    } else {
        None
    }
}

/// The token file for a profile inside the given directory.
pub fn profile_path(dir: &str, profile: Option<&String>) -> (r: Result<String, ConfigError>)
    ensures
        ({
            let account = match profile {
                Some(p) => p@,
                None => "default"@,
            };
            match r {
                Ok(p) => profile_name_ok(account) && p@ == dir@ + "/"@ + account,
                Err(e) => {
                    &&& !profile_name_ok(account)
                    &&& e matches ConfigError::InvalidProfileName { name: n } && n@ == account
                },
            }
        }),
{
    let account = account_name(profile);
    match validate_profile_name(account.as_str()) {
        Ok(_) => {
            let mut p = String::from_str(dir);
            p.append("/");
            p.append(account.as_str());
            Ok(p)
        },
        Err(e) => Err(e),
    }
}

/// The token file for a profile under the platform data directory.
pub fn token_path(data_dir: &str, profile: Option<&String>) -> (r: Result<String, ConfigError>)
    ensures
        ({
            let account = match profile {
                Some(p) => p@,
                None => "default"@,
            };
            match r {
                Ok(p) => profile_name_ok(account) && p@ == (data_dir@ + "/slafling/tokens"@) + "/"@
                    + account,
                Err(e) => {
                    &&& !profile_name_ok(account)
                    &&& e matches ConfigError::InvalidProfileName { name: n } && n@ == account
                },
            }
        }),
{
    let mut dir = String::from_str(data_dir);
    dir.append("/slafling/tokens");
    profile_path(dir.as_str(), profile)
}

} // verus!
