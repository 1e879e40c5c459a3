//! View-model data handed to the rendering layer: the per-page
//! template inputs, the language choices offered on the creation
//! form, and the remaining-lifetime readout shown on a paste.

use vstd::prelude::*;

verus! {

/// Input of the password-prompt page.
pub struct PasswordTemplate {
    pub id: String,
    pub error: Option<String>,
}

/// Input of the not-found page.
pub struct NotFoundTemplate;

/// Input of the login page.
pub struct LoginTemplate {
    pub error: Option<String>,
}

/// Input of the registration page.
pub struct RegisterTemplate {
    pub error: Option<String>,
}

/// How long a paste still has to live, in the coarsest unit that is
/// not zero; `Expired` when its time has already passed.
#[derive(Clone, Copy, Debug, PartialEq, Eq, Structural)]
pub enum ExpiresIn {
    Expired,
    Days(i64),
    Hours(i64),
    Minutes(i64),
}

/// The remaining-lifetime readout for a paste, at the spec level:
/// none without an expiry; otherwise the remaining time in whole
/// days, else whole hours, else whole minutes.
pub open spec fn spec_expires_in(expires_at: Option<int>, now: int) -> Option<ExpiresIn> {
    match expires_at {
        None => None,
        Some(e) => {
            let d = e - now;
            if d <= 0 {
                Some(ExpiresIn::Expired)
            } else if d / 86400 > 0 {
                Some(ExpiresIn::Days((d / 86400) as i64))
            } else if d / 3600 > 0 {
                Some(ExpiresIn::Hours((d / 3600) as i64))
            } else {
                Some(ExpiresIn::Minutes((d / 60) as i64))
            }
        },
    }
}

/// Compute the remaining-lifetime readout for a paste.
pub fn expires_in(expires_at: Option<i64>, now: i64) -> (r: Option<ExpiresIn>)
    requires
        expires_at matches Some(e) ==> i64::MIN <= e - now <= i64::MAX,
    ensures
        r == spec_expires_in(
            match expires_at {
                Some(e) => Some(e as int),
                None => None,
            },
            now as int,
        ),
{
    let e = match expires_at {
        None => {
            return None;
        },
        Some(e) => e,
    };
    let d = e - now;
    if d <= 0 {
        Some(ExpiresIn::Expired)
    } else if d / 86400 > 0 {
        Some(ExpiresIn::Days(d / 86400))
    } else if d / 3600 > 0 {
        Some(ExpiresIn::Hours(d / 3600))
    } else {
        Some(ExpiresIn::Minutes(d / 60))
    }
}

/// The language choices offered on the creation form: an identifier
/// and a display name each.
pub fn get_supported_languages() -> (r: Vec<(&'static str, &'static str)>)
    ensures
        r@.len() == 22,
        r@[0].0@ == "plaintext"@ && r@[0].1@ == "Plain Text"@,
        r@[1].0@ == "rust"@ && r@[1].1@ == "Rust"@,
        r@[2].0@ == "javascript"@ && r@[2].1@ == "JavaScript"@,
        r@[3].0@ == "typescript"@ && r@[3].1@ == "TypeScript"@,
        r@[4].0@ == "python"@ && r@[4].1@ == "Python"@,
        r@[5].0@ == "go"@ && r@[5].1@ == "Go"@,
        r@[6].0@ == "java"@ && r@[6].1@ == "Java"@,
        r@[7].0@ == "c"@ && r@[7].1@ == "C"@,
        r@[8].0@ == "cpp"@ && r@[8].1@ == "C++"@,
        r@[9].0@ == "csharp"@ && r@[9].1@ == "C#"@,
        r@[10].0@ == "php"@ && r@[10].1@ == "PHP"@,
        r@[11].0@ == "ruby"@ && r@[11].1@ == "Ruby"@,
        r@[12].0@ == "swift"@ && r@[12].1@ == "Swift"@,
        r@[13].0@ == "kotlin"@ && r@[13].1@ == "Kotlin"@,
        r@[14].0@ == "sql"@ && r@[14].1@ == "SQL"@,
        r@[15].0@ == "html"@ && r@[15].1@ == "HTML"@,
        r@[16].0@ == "css"@ && r@[16].1@ == "CSS"@,
        r@[17].0@ == "json"@ && r@[17].1@ == "JSON"@,
        r@[18].0@ == "yaml"@ && r@[18].1@ == "YAML"@,
        r@[19].0@ == "markdown"@ && r@[19].1@ == "Markdown"@,
        r@[20].0@ == "bash"@ && r@[20].1@ == "Bash"@,
        r@[21].0@ == "dockerfile"@ && r@[21].1@ == "Dockerfile"@,
{
    let v: Vec<(&'static str, &'static str)> = vec![
        ("plaintext", "Plain Text"),
        ("rust", "Rust"),
        ("javascript", "JavaScript"),
        ("typescript", "TypeScript"),
        ("python", "Python"),
        ("go", "Go"),
        ("java", "Java"),
        ("c", "C"),
        ("cpp", "C++"),
        ("csharp", "C#"),
        ("php", "PHP"),
        ("ruby", "Ruby"),
        ("swift", "Swift"),
        ("kotlin", "Kotlin"),
        ("sql", "SQL"),
        ("html", "HTML"),
        ("css", "CSS"),
        ("json", "JSON"),
        ("yaml", "YAML"),
        ("markdown", "Markdown"),
        ("bash", "Bash"),
        ("dockerfile", "Dockerfile"),
    ];
    v
}

} // verus!
