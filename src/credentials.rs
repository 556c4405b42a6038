//! Which credentials to try, and on which remote, when talking to a remote.
use vstd::prelude::*;

verus! {

#[derive(Debug, Clone, PartialEq, Eq)]
pub enum SshCredential {
    Keyfile { key_path: String, passphrase: Option<String> },
}

#[derive(Debug, Clone, PartialEq, Eq)]
pub enum HttpsCredential {
    CredentialHelper { username: String, password: String },
    GitHubToken(String),
}

#[derive(Debug, Clone, PartialEq, Eq)]
pub enum Credential {
    Noop,
    Ssh(SshCredential),
    Https(HttpsCredential),
}

/// The scheme of a remote's URL.
#[derive(Debug, Clone, Copy, PartialEq, Eq, Structural)]
pub enum Scheme {
    File,
    Ssh,
    Https,
    Other,
}

/// How the project prefers to authenticate.
#[derive(Debug, Clone, PartialEq, Eq)]
pub enum AuthKey {
    /// A local SSH private key.
    Local { private_key_path: String },
    /// The system's git credential helper.
    GitCredentialsHelper,
    /// The system's git executable, which authenticates on its own.
    SystemExecutable,
}

/// The remote to authenticate against.
#[derive(Debug, Clone, Copy, PartialEq, Eq, Structural)]
pub enum RemoteChoice {
    /// The remote as it is configured.
    Configured,
    /// An anonymous remote at the URL rewritten to SSH.
    AnonymousSsh,
    /// An anonymous remote at the URL rewritten to HTTPS.
    AnonymousHttps,
}

pub ghost enum CredentialView {
    Noop,
    SshKeyfile { key_path: Seq<char>, passphrase: Option<Seq<char>> },
    HttpsHelper { username: Seq<char>, password: Seq<char> },
    GitHubToken { token: Seq<char> },
}

pub open spec fn opt_string_view(o: Option<String>) -> Option<Seq<char>> {
    match o {
        Some(s) => Some(s@),
        None => None,
    }
}

impl View for Credential {
    type V = CredentialView;

    open spec fn view(&self) -> CredentialView {
        match self {
            Credential::Noop => CredentialView::Noop,
            Credential::Ssh(SshCredential::Keyfile { key_path, passphrase }) => CredentialView::SshKeyfile {
                key_path: key_path@,
                passphrase: opt_string_view(*passphrase),
            },
            Credential::Https(HttpsCredential::CredentialHelper { username, password }) => CredentialView::HttpsHelper {
                username: username@,
                password: password@,
            },
            Credential::Https(HttpsCredential::GitHubToken(t)) => CredentialView::GitHubToken { token: t@ },
        }
    }
}

pub open spec fn answer_view(o: Option<(String, String)>) -> Option<(Seq<char>, Seq<char>)> {
    match o {
        Some((u, p)) => Some((u@, p@)),
        None => None,
    }
}

pub open spec fn credentials_view(s: Seq<Credential>) -> Seq<CredentialView> {
    s.map_values(|c: Credential| c@)
}

pub open spec fn attempts_view(s: Seq<(RemoteChoice, Vec<Credential>)>) -> Seq<(RemoteChoice, Seq<CredentialView>)> {
    s.map_values(|a: (RemoteChoice, Vec<Credential>)| (a.0, credentials_view(a.1@)))
}

/// The attempts to make, in order: a file remote needs no authentication; a
/// local key is tried over SSH; the credential helper's answer, if it gave
/// one, is tried over HTTPS; the system executable needs no attempt here.
pub open spec fn attempts_for(
    scheme: Scheme,
    key: AuthKey,
    helper_answer: Option<(Seq<char>, Seq<char>)>,
) -> Seq<(RemoteChoice, Seq<CredentialView>)> {
    if scheme == Scheme::File {
        seq![(RemoteChoice::Configured, seq![CredentialView::Noop])]
    } else {
        match key {
            AuthKey::Local { private_key_path } => seq![(
                if scheme == Scheme::Ssh { RemoteChoice::Configured } else { RemoteChoice::AnonymousSsh },
                seq![CredentialView::SshKeyfile { key_path: private_key_path@, passphrase: None }],
            )],
            AuthKey::GitCredentialsHelper => seq![(
                if scheme == Scheme::Https { RemoteChoice::Configured } else { RemoteChoice::AnonymousHttps },
                match helper_answer {
                    Some((u, p)) => seq![CredentialView::HttpsHelper { username: u, password: p }],
                    None => Seq::empty(),
                },
            )],
            AuthKey::SystemExecutable => Seq::empty(),
        }
    }
}

/// Decides how to authenticate against a remote.
#[derive(Clone, Default)]
pub struct Helper {}

impl Helper {
    /// The remotes and credentials to try, given the scheme of the remote's
    /// URL, the project's preferred key, and what the system credential helper
    /// answered for the URL, if it was asked.
    pub fn help(
        &self,
        scheme: Scheme,
        preferred_key: &AuthKey,
        helper_answer: Option<(String, String)>,
    ) -> (r: Vec<(RemoteChoice, Vec<Credential>)>)
        ensures
            attempts_view(r@) == attempts_for(
                scheme,
                *preferred_key,
                answer_view(helper_answer),
            ),
    {
        let ghost answer = answer_view(helper_answer);
        let mut r: Vec<(RemoteChoice, Vec<Credential>)> = Vec::new();
        if scheme == Scheme::File {
            let mut creds: Vec<Credential> = Vec::new();
            creds.push(Credential::Noop);
            assert(credentials_view(creds@) =~= seq![CredentialView::Noop]);
            r.push((RemoteChoice::Configured, creds));
        } else {
            match preferred_key {
                AuthKey::Local { private_key_path } => {
                    let remote = if scheme == Scheme::Ssh { RemoteChoice::Configured } else { RemoteChoice::AnonymousSsh };
                    let mut creds: Vec<Credential> = Vec::new();
                    creds.push(Credential::Ssh(SshCredential::Keyfile {
                        key_path: private_key_path.clone(),
                        passphrase: None,
                    }));
                    assert(credentials_view(creds@) =~= seq![
                        CredentialView::SshKeyfile { key_path: private_key_path@, passphrase: None },
                    ]);
                    r.push((remote, creds));
                },
                AuthKey::GitCredentialsHelper => {
                    let remote = if scheme == Scheme::Https { RemoteChoice::Configured } else { RemoteChoice::AnonymousHttps };
                    let mut creds: Vec<Credential> = Vec::new();
                    match helper_answer {
                        Some((username, password)) => {
                            let ghost (u, p) = (username@, password@);
                            creds.push(Credential::Https(HttpsCredential::CredentialHelper { username, password }));
                            assert(credentials_view(creds@) =~= seq![
                                CredentialView::HttpsHelper { username: u, password: p },
                            ]);
                        },
                        None => {
                            assert(credentials_view(creds@) =~= Seq::<CredentialView>::empty());
                        },
                    }
                    r.push((remote, creds));
                },
                AuthKey::SystemExecutable => {},
            }
        }
        assert(attempts_view(r@) =~= attempts_for(scheme, *preferred_key, answer));
        r
    }
}

} // verus!
