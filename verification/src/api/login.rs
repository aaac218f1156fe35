//! Logging in: a user is whoever the name in a cookie says.

use vstd::prelude::*;

use crate::api::{Content, Either, Redirect, Root};
use crate::text::chars_of;

verus! {

/// The login form.
pub struct LoginPage {
    pub value: String,
    pub has_error: bool,
    pub from_validation: bool,
}

impl Default for LoginPage {
    fn default() -> (page: Self)
        ensures
            page.value@ == Seq::<char>::empty(),
            page.has_error,
            !page.from_validation,
    {
        LoginPage { value: String::new(), has_error: true, from_validation: false }
    }
}

/// How far a cookie travels with requests that come from other sites.
#[derive(Clone, Copy, Debug, PartialEq, Eq, Structural)]
pub enum SameSite {
    /// Never.
    Strict,
    /// Only when the user follows a link.
    Lax,
    /// Always.
    Unrestricted,
}

/// A cookie for the client to keep.
pub struct Cookie {
    pub name: String,
    pub value: String,
    pub http_only: bool,
    pub same_site: SameSite,
}

/// The name of the cookie that holds the user's name.
pub const USER_NAME_COOKIE: &'static str = "MSGX_USERNAME";

/// The login form for a visitor; one who is logged in is sent on to the
/// conversations.
pub fn login(username: Option<Username>) -> (res: Either<Root, Redirect>)
    ensures
        match res {
            Either::E1(page) => username is None && match page.content {
                Content::Login(form) => form.value@ == Seq::<char>::empty() && form.has_error
                    && !form.from_validation,
                Content::Messages(_) => false,
            },
            Either::E2(redirect) => username is Some && redirect.to@ == "/conversations"@,
        },
{
    if username.is_some() {
        return Either::E2(Redirect { to: "/conversations".to_owned() });
    }
    Either::E1(Root { content: Content::Login(LoginPage::default()) })
}

/// Logs in under the name that the form sent: where it can name a user,
/// the cookie to set and the way on to the conversations; where it cannot,
/// the form again, with the name and an error.
pub fn try_login(parameters: LoginParameters) -> (res: Either<LoginPage, (Cookie, Redirect)>)
    ensures
        match res {
            Either::E1(form) => {
                &&& !valid_username(parameters.username@)
                &&& form.value@ == parameters.username@
                &&& form.has_error
                &&& form.from_validation
            },
            Either::E2(answer) => {
                &&& valid_username(parameters.username@)
                &&& answer.0.name@ == USER_NAME_COOKIE@
                &&& answer.0.value@ == parameters.username@
                &&& answer.0.http_only
                &&& answer.0.same_site == SameSite::Lax
                &&& answer.1.to@ == "/conversations"@
            },
        },
{
    let username = parameters.username;
    if Username::new(username.as_str()).is_some() {
        let cookie = Cookie {
            name: USER_NAME_COOKIE.to_owned(),
            value: username,
            http_only: true,
            same_site: SameSite::Lax,
        };
        return Either::E2((cookie, Redirect { to: "/conversations".to_owned() }));
    }
    Either::E1(LoginPage { value: username, has_error: true, from_validation: true })
}

/// The login form as it stands while the name is typed: with an error
/// exactly where the name cannot name a user.
pub fn validate_username(parameters: LoginParameters) -> (form: LoginPage)
    ensures
        form.value@ == parameters.username@,
        form.has_error == !valid_username(parameters.username@),
        form.from_validation,
{
    let username = parameters.username;
    LoginPage {
        has_error: Username::new(username.as_str()).is_none(),
        value: username,
        from_validation: true,
    }
}

/// What the login form sends.
pub struct LoginParameters {
    pub username: String,
}

/// Whether `c` is a letter of the English alphabet.
pub open spec fn is_letter(c: char) -> bool {
    ('a' <= c && c <= 'z') || ('A' <= c && c <= 'Z')
}

/// Whether `c` is a decimal digit.
pub open spec fn is_digit(c: char) -> bool {
    '0' <= c && c <= '9'
}

/// Whether `name` can name a user: one to twenty letters and digits, the
/// first of them a letter.
pub open spec fn valid_username(name: Seq<char>) -> bool {
    &&& 1 <= name.len() <= 20
    &&& forall|i: int|
        0 <= i < name.len() ==> is_letter(#[trigger] name[i]) || (i > 0 && is_digit(name[i]))
}

/// The name of a user.
pub struct Username(String);

impl View for Username {
    type V = Seq<char>;

    closed spec fn view(&self) -> Seq<char> {
        self.0@
    }
}

impl Username {
    #[verifier::type_invariant]
    spec fn well_formed(self) -> bool {
        valid_username(self.0@)
    }

    /// The user of that name, where it can name one.
    pub fn new(s: &str) -> (res: Option<Self>)
        ensures
            res is Some <==> valid_username(s@),
            res matches Some(name) ==> name@ == s@,
    {
        let chars = chars_of(s);
        if chars.len() == 0 || chars.len() > 20 {
            return None;
        }
        let mut i: usize = 0;
        while i < chars.len()
            invariant
                i <= chars.len(),
                chars@ == s@,
                forall|k: int|
                    0 <= k < i ==> is_letter(#[trigger] chars@[k]) || (k > 0 && is_digit(
                        chars@[k],
                    )),
            decreases chars.len() - i,
        {
            let c = chars[i];
            let letter = ('a' <= c && c <= 'z') || ('A' <= c && c <= 'Z');
            let digit = '0' <= c && c <= '9';
            if !(letter || (i > 0 && digit)) {
                return None;
            }
            i += 1;
        }
        Some(Username(s.to_owned()))
    }

    /// The user that a request comes from, by the value of its name
    /// cookie; a request without such a cookie, or with one that cannot
    /// name a user, is sent to the login form.
    pub fn from_cookie(value: Option<&str>) -> (res: Result<Self, Redirect>)
        ensures
            res is Ok <==> (value matches Some(name) && valid_username(name@)),
            res matches Ok(user) ==> value matches Some(name) && user@ == name@,
            res matches Err(redirect) ==> redirect.to@ == "/login"@,
    {
        let found = match value {
            Some(name) => Username::new(name),
            None => None,
        };
        match found {
            Some(user) => Ok(user),
            None => Err(Redirect { to: "/login".to_owned() }),
        }
    }

    /// The name as text.
    pub fn as_str(&self) -> (name: &str)
        ensures
            name@ == self@,
            valid_username(name@),
    {
        proof {
            use_type_invariant(self);
        }
        self.0.as_str()
    }

    /// The name as text, given away.
    pub fn into_inner(self) -> (name: String)
        ensures
            name@ == self@,
            valid_username(name@),
    {
        proof {
            use_type_invariant(&self);
        }
        self.0
    }
}

impl std::ops::Deref for Username {
    type Target = str;

    fn deref(&self) -> (name: &str)
        ensures
            name@ == self@,
    {
        self.0.as_str()
    }
}

} // verus!
