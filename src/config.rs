//! The global profile store and the per-project configuration.
use vstd::prelude::*;

use crate::credentials::get_credentials;
use crate::text::{chars_of, vec_eq};

verus! {

/// The API base URL used when a profile names none.
pub const DEFAULT_API_URL: &'static str = "https://api.bitbucket.org/2.0";

/// The name of the profile used when none is selected.
pub const DEFAULT_PROFILE: &'static str = "default";

/// A named bundle of defaults; its name is its key in [`ProfileConfig::profiles`].
#[derive(Debug, Clone, Default)]
pub struct Profile {
    pub workspace: Option<String>,
    pub user: Option<String>,
    pub repository: Option<String>,
    pub api_url: Option<String>,
    pub remote: Option<String>,
    pub output_format: Option<String>,
}

/// The global configuration: the selected profile's name and the profiles by name.
#[derive(Debug, Clone, Default)]
pub struct ProfileConfig {
    /// The name of the selected profile; `default` when absent.
    pub user: Option<String>,
    /// The profiles, each under its name; the first entry of a name is the one that counts.
    pub profiles: Option<Vec<(String, Profile)>>,
}

/// The `project` table of a checkout's own configuration file.
#[derive(Debug, Clone, Default)]
pub struct ProjectContext {
    pub workspace: Option<String>,
    pub repository: Option<String>,
    pub remote: Option<String>,
}

/// A checkout's own configuration file.
#[derive(Debug, Clone, Default)]
pub struct LocalProjectConfig {
    pub project: Option<ProjectContext>,
}

/// The characters of an optional string.
pub open spec fn opt_view(o: Option<String>) -> Option<Seq<char>> {
    match o {
        Some(s) => Some(s@),
        None => None,
    }
}

/// The characters of an optional string slice.
pub open spec fn opt_str_view(o: Option<&str>) -> Option<Seq<char>> {
    match o {
        Some(s) => Some(s@),
        None => None,
    }
}

/// The value behind an optional reference.
pub open spec fn opt_deref<T>(o: Option<&T>) -> Option<T> {
    match o {
        Some(p) => Some(*p),
        None => None,
    }
}

pub open spec fn default_profile_name() -> Seq<char> {
    seq!['d', 'e', 'f', 'a', 'u', 'l', 't']
}

/// The first profile named `name` in `entries`.
pub open spec fn profile_named(entries: Seq<(String, Profile)>, name: Seq<char>) -> Option<Profile>
    decreases entries.len(),
{
    if entries.len() == 0 {
        None
    } else if entries[0].0@ == name {
        Some(entries[0].1)
    } else {
        profile_named(entries.skip(1), name)
    }
}

/// The name of the profile in force: the override, else the stored selection, else `default`.
pub open spec fn selected_name(stored: Option<String>, profile_override: Option<Seq<char>>) -> Seq<
    char,
> {
    match profile_override {
        Some(n) => n,
        None => match stored {
            Some(u) => u@,
            None => default_profile_name(),
        },
    }
}

impl ProfileConfig {
    /// The profile in force under an optional override of the selection.
    pub open spec fn profile_for_spec(self, profile_override: Option<Seq<char>>) -> Option<Profile> {
        match self.profiles {
            Some(entries) => profile_named(entries@, selected_name(self.user, profile_override)),
            None => None,
        }
    }

    /// The profile in force, chosen by `profile_override` when given.
    pub fn profile_for(&self, profile_override: Option<&str>) -> (r: Option<&Profile>)
        ensures
            opt_deref(r) == self.profile_for_spec(opt_str_view(profile_override)),
    {
        let ghost ov = opt_str_view(profile_override);
        let name: Vec<char> = match profile_override {
            Some(s) => chars_of(s),
            None => match &self.user {
                Some(u) => chars_of(u.as_str()),
                None => {
                    proof {
                        reveal_strlit("default");
                    }
                    let d = chars_of(DEFAULT_PROFILE);
                    assert(d@ =~= default_profile_name());
                    d
                },
            },
        };
        match &self.profiles {
            None => None,
            Some(entries) => {
                let mut i: usize = 0;
                assert(entries@.skip(0) =~= entries@);
                while i < entries.len()
                    invariant
                        i <= entries.len(),
                        ov == opt_str_view(profile_override),
                        name@ == selected_name(self.user, ov),
                        self.profiles == Some(*entries),
                        profile_named(entries@, name@) == profile_named(
                            entries@.skip(i as int),
                            name@,
                        ),
                    decreases entries.len() - i,
                {
                    let key = chars_of(entries[i].0.as_str());
                    assert(entries@.skip(i as int)[0] == entries@[i as int]);
                    if vec_eq(&key, &name) {
                        return Some(&entries[i].1);
                    }
                    assert(entries@.skip(i as int).skip(1) =~= entries@.skip(i + 1));
                    i = i + 1;
                }
                None
            },
        }
    }

    /// The selected profile: the one named by `user`, else the one named `default`.
    pub fn get_active_profile(&self) -> (r: Option<&Profile>)
        ensures
            opt_deref(r) == self.profile_for_spec(None),
    {
        self.profile_for(None)
    }

    /// The user name configured in the selected profile.
    pub fn get_default_user(&self) -> (r: Option<String>)
        ensures
            r == match self.profile_for_spec(None) {
                Some(p) => p.user,
                None => None,
            },
    {
        match self.get_active_profile() {
            Some(p) => match &p.user {
                Some(u) => Some(u.clone()),
                None => None,
            },
            None => None,
        }
    }
}

/// What an API client is made with: the base URL and, when known, the user
/// name and secret for basic authentication.
#[derive(Debug, Clone)]
pub struct ClientSettings {
    pub base_url: String,
    pub auth: Option<(String, String)>,
}

pub open spec fn profile_user(p: Option<Profile>) -> Option<Seq<char>> {
    match p {
        Some(p) => opt_view(p.user),
        None => None,
    }
}

/// The API base URL of a profile: its own, else the default one.
pub open spec fn profile_api_url(p: Option<Profile>) -> Seq<char> {
    match p {
        Some(p) => match p.api_url {
            Some(u) => u@,
            None => DEFAULT_API_URL@,
        },
        None => DEFAULT_API_URL@,
    }
}

impl ProfileConfig {
    /// The client settings of the profile in force, given the secret found
    /// (or not) for its user.
    pub fn client_settings(&self, profile_override: Option<&str>, secret: Option<String>) -> (r:
        ClientSettings)
        ensures
            r.base_url@ == profile_api_url(self.profile_for_spec(opt_str_view(profile_override))),
            match (profile_user(self.profile_for_spec(opt_str_view(profile_override))), secret) {
                (Some(u), Some(s)) => match r.auth {
                    Some((ru, rs)) => ru@ == u && rs == s,
                    None => false,
                },
                _ => r.auth is None,
            },
    {
        let profile = self.profile_for(profile_override);
        let base_url = match profile {
            Some(p) => match &p.api_url {
                Some(u) => u.clone(),
                None => DEFAULT_API_URL.to_string(),
            },
            None => DEFAULT_API_URL.to_string(),
        };
        let user = match profile {
            Some(p) => match &p.user {
                Some(u) => Some(u.clone()),
                None => None,
            },
            None => None,
        };
        let auth = match (user, secret) {
            (Some(u), Some(s)) => Some((u, s)),
            _ => None,
        };
        ClientSettings { base_url, auth }
    }

    /// The client settings of the profile in force, with the secret of its
    /// user read from the credential store. A missing user or secret leaves
    /// the client unauthenticated.
    pub fn create_client(&self, profile_override: Option<&str>) -> (r: ClientSettings)
        ensures
            r.base_url@ == profile_api_url(self.profile_for_spec(opt_str_view(profile_override))),
            profile_user(self.profile_for_spec(opt_str_view(profile_override))) is None ==> r.auth is None,
            match r.auth {
                Some((ru, _)) => Some(ru@) == profile_user(
                    self.profile_for_spec(opt_str_view(profile_override)),
                ),
                None => true,
            },
    {
        let secret = match self.profile_for(profile_override) {
            Some(p) => match &p.user {
                Some(u) => match get_credentials(u.as_str()) {
                    Ok(s) => Some(s),
                    Err(_) => None,
                },
                None => None,
            },
            None => None,
        };
        self.client_settings(profile_override, secret)
    }
}

/// Whether `key` is a setting kept per profile.
pub open spec fn is_profile_setting(key: Seq<char>) -> bool {
    key == "workspace"@ || key == "repository"@ || key == "remote"@
}

/// Whether the characters of `a` and `b` are the same.
fn same_text(a: &str, b: &str) -> (r: bool)
    ensures
        r == (a@ == b@),
{
    let x = chars_of(a);
    let y = chars_of(b);
    vec_eq(&x, &y)
}

/// The dotted key that setting `key` writes: a per-profile setting goes
/// under the selected profile (`default` when none is selected), any other
/// key is written as given.
pub fn config_key_path(key: &str, selected: Option<&str>) -> (r: String)
    ensures
        is_profile_setting(key@) ==> r@ == "profile."@ + match selected {
            Some(s) => s@,
            None => DEFAULT_PROFILE@,
        } + "."@ + key@,
        !is_profile_setting(key@) ==> r@ == key@,
{
    if same_text(key, "workspace") || same_text(key, "repository") || same_text(key, "remote") {
        let mut r = String::new();
        r.append("profile.");
        match selected {
            Some(s) => r.append(s),
            None => r.append(DEFAULT_PROFILE),
        }
        r.append(".");
        r.append(key);
        assert(Seq::<char>::empty() + "profile."@ =~= "profile."@);
        r
    } else {
        key.to_string()
    }
}

} // verus!
