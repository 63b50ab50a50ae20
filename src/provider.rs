//! The settings of an OAuth2 provider: client credentials, endpoints, scopes
//! and whether PKCE is used.
use vstd::prelude::*;

verus! {

/// The client settings that configure one OAuth2 provider.
pub struct Oauth2Config<'a> {
    pub client_id: &'a str,
    pub client_secret: &'a str,
    pub scopes: &'a [&'a str],
    pub redirect_url: &'a str,
    pub auth_url: &'a str,
    pub token_url: &'a str,
}

/// The character sequences of a list of string slices.
pub open spec fn str_views(v: Seq<&str>) -> Seq<Seq<char>> {
    v.map_values(|s: &str| s@)
}

/// What a `BaseProvider` holds, as plain values.
pub struct ProviderSettings {
    pub client_id: Seq<char>,
    pub client_secret: Seq<char>,
    pub display_name: Seq<char>,
    pub redirect_url: Seq<char>,
    pub auth_url: Seq<char>,
    pub token_url: Seq<char>,
    pub user_info_url: Seq<char>,
    pub scopes: Seq<Seq<char>>,
    pub pkce: bool,
}

/// The settings shared by every OAuth2 provider.
///
/// Provider-specific extras (a map from name to a value of any type) are not
/// held here: a value of `dyn Any` can be neither cloned nor handed to
/// Verus, so no faithful getter could be written. The user-info endpoint is
/// `user_info_url`; no separate provider URL or client display name is kept.
pub struct BaseProvider<'a> {
    client_id: &'a str,
    client_secret: &'a str,
    display_name: &'a str,
    redirect_url: &'a str,
    auth_url: &'a str,
    token_url: &'a str,
    user_info_url: &'a str,
    scopes: &'a [&'a str],
    pkce: bool,
}

impl<'a> View for BaseProvider<'a> {
    type V = ProviderSettings;

    closed spec fn view(&self) -> ProviderSettings {
        ProviderSettings {
            client_id: self.client_id@,
            client_secret: self.client_secret@,
            display_name: self.display_name@,
            redirect_url: self.redirect_url@,
            auth_url: self.auth_url@,
            token_url: self.token_url@,
            user_info_url: self.user_info_url@,
            scopes: str_views(self.scopes@),
            pkce: self.pkce,
        }
    }
}

impl<'a> BaseProvider<'a> {
    /// A provider with the credentials, endpoints and scopes of `config`, no
    /// display name or user-info endpoint yet, and PKCE off.
    pub fn from_config(config: &Oauth2Config<'a>) -> (r: BaseProvider<'a>)
        ensures
            r@ == (ProviderSettings {
                client_id: config.client_id@,
                client_secret: config.client_secret@,
                display_name: Seq::empty(),
                redirect_url: config.redirect_url@,
                auth_url: config.auth_url@,
                token_url: config.token_url@,
                user_info_url: Seq::empty(),
                scopes: str_views(config.scopes@),
                pkce: false,
            }),
    {
        proof {
            reveal_strlit("");
        }
        let r = BaseProvider {
            client_id: config.client_id,
            client_secret: config.client_secret,
            display_name: "",
            redirect_url: config.redirect_url,
            auth_url: config.auth_url,
            token_url: config.token_url,
            user_info_url: "",
            scopes: config.scopes,
            pkce: false,
        };
        assert(r@.display_name =~= Seq::<char>::empty());
        assert(r@.user_info_url =~= Seq::<char>::empty());
        r
    }

    pub fn pkce(&self) -> (r: bool)
        ensures
            r == self@.pkce,
    {
        self.pkce
    }

    pub fn set_pkce(&mut self, enable: bool)
        ensures
            final(self)@ == (ProviderSettings { pkce: enable, ..old(self)@ }),
    {
        self.pkce = enable;
    }

    pub fn display_name(&self) -> (r: &str)
        ensures
            r@ == self@.display_name,
    {
        self.display_name
    }

    pub fn set_display_name(&mut self, name: &'a str)
        ensures
            final(self)@ == (ProviderSettings { display_name: name@, ..old(self)@ }),
    {
        self.display_name = name;
    }

    pub fn scopes(&self) -> (r: &[&'a str])
        ensures
            str_views(r@) == self@.scopes,
    {
        self.scopes
    }

    pub fn set_scopes(&mut self, scopes: &'a [&'a str])
        ensures
            final(self)@ == (ProviderSettings { scopes: str_views(scopes@), ..old(self)@ }),
    {
        self.scopes = scopes;
    }

    pub fn client_id(&self) -> (r: &str)
        ensures
            r@ == self@.client_id,
    {
        self.client_id
    }

    pub fn set_client_id(&mut self, client_id: &'a str)
        ensures
            final(self)@ == (ProviderSettings { client_id: client_id@, ..old(self)@ }),
    {
        self.client_id = client_id;
    }

    pub fn client_secret(&self) -> (r: &str)
        ensures
            r@ == self@.client_secret,
    {
        self.client_secret
    }

    pub fn set_client_secret(&mut self, secret: &'a str)
        ensures
            final(self)@ == (ProviderSettings { client_secret: secret@, ..old(self)@ }),
    {
        self.client_secret = secret;
    }

    pub fn redirect_url(&self) -> (r: &str)
        ensures
            r@ == self@.redirect_url,
    {
        self.redirect_url
    }

    pub fn set_redirect_url(&mut self, redirect_url: &'a str)
        ensures
            final(self)@ == (ProviderSettings { redirect_url: redirect_url@, ..old(self)@ }),
    {
        self.redirect_url = redirect_url;
    }

    pub fn token_url(&self) -> (r: &str)
        ensures
            r@ == self@.token_url,
    {
        self.token_url
    }

    pub fn set_token_url(&mut self, token_url: &'a str)
        ensures
            final(self)@ == (ProviderSettings { token_url: token_url@, ..old(self)@ }),
    {
        self.token_url = token_url;
    }

    pub fn auth_url(&self) -> (r: &str)
        ensures
            r@ == self@.auth_url,
    {
        self.auth_url
    }

    pub fn set_auth_url(&mut self, auth_url: &'a str)
        ensures
            final(self)@ == (ProviderSettings { auth_url: auth_url@, ..old(self)@ }),
    {
        self.auth_url = auth_url;
    }

    pub fn user_info_url(&self) -> (r: &str)
        ensures
            r@ == self@.user_info_url,
    {
        self.user_info_url
    }

    /// Sets the user-info endpoint; the authorization endpoint is left as it
    /// was.
    pub fn set_user_info_url(&mut self, user_info_url: &'a str)
        ensures
            final(self)@ == (ProviderSettings { user_info_url: user_info_url@, ..old(self)@ }),
    {
        self.user_info_url = user_info_url;
    }
}

} // verus!
