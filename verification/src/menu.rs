//! The main-menu controls: what the menu decides in response to interface
//! messages.
//!
//! Rendering and input collection belong to the interface toolkit; what
//! lives here is the decision logic — which screen is showing, what the
//! login form holds, which events go out to the owning application.
use crate::i18n::LanguageMetadata;
use vstd::prelude::*;
use vstd::string::StrSliceExecFns;
use vstd::string::StringExecFns;

verus! {

/// What the menu asks the owning application to do.
#[derive(Debug)]
pub enum Event {
    LoginAttempt { username: String, password: String, server_address: String },
    CancelLoginAttempt,
    ChangeLanguage(LanguageMetadata),
    Quit,
    DeleteServer { server_index: usize },
}

/// The login form's contents.
#[derive(Debug)]
pub struct LoginInfo {
    pub username: String,
    pub password: String,
    pub server: String,
}

/// Which login input currently has focus.
#[derive(Clone, Copy, PartialEq, Eq, Structural, Debug)]
pub enum FocusedField {
    Username,
    Password,
    Server,
}

/// Which screen the menu is showing.
#[derive(Debug)]
pub enum Screen {
    Credits,
    Login { focus: FocusedField, error: Option<String> },
    Servers,
    Connecting,
}

/// One interface message the menu reacts to.
#[derive(Debug)]
pub enum Message {
    Quit,
    Back,
    ShowServers,
    ShowCredits,
    Multiplayer,
    LanguageChanged(usize),
    OpenLanguageMenu,
    Username(String),
    Password(String),
    Server(String),
    ServerChanged(usize),
    FocusPassword,
    CancelConnect,
    CloseError,
    DeleteServer,
}

/// A character the login form trims from the ends of the username.
pub open spec fn is_space(c: char) -> bool {
    c == ' ' || c == '\t' || c == '\n' || c == '\r'
}

/// `s` without leading whitespace.
pub open spec fn trim_front(s: Seq<char>) -> Seq<char>
    decreases s.len(),
{
    if s.len() > 0 && is_space(s[0]) {
        trim_front(s.skip(1))
    } else {
        s
    }
}

/// `s` without trailing whitespace.
pub open spec fn trim_back(s: Seq<char>) -> Seq<char>
    decreases s.len(),
{
    if s.len() > 0 && is_space(s.last()) {
        trim_back(s.drop_last())
    } else {
        s
    }
}

/// `s` without leading or trailing whitespace.
pub open spec fn spec_trim(s: Seq<char>) -> Seq<char> {
    trim_back(trim_front(s))
}

/// A copy of `s` without leading or trailing whitespace.
pub fn trim_spaces(s: &str) -> (r: String)
    ensures
        r@ == spec_trim(s@),
{
    let n = s.unicode_len();
    let mut start: usize = 0;
    proof {
        assert(s@.skip(0) =~= s@);
    }
    while start < n && is_space_char(s.get_char(start))
        invariant
            start <= n,
            n == s@.len(),
            trim_front(s@) == trim_front(s@.skip(start as int)),
            forall|j: int| 0 <= j < start ==> is_space(#[trigger] s@[j]),
        decreases n - start,
    {
        proof {
            assert(s@.skip(start as int)[0] == s@[start as int]);
            assert(s@.skip(start as int).skip(1) =~= s@.skip(start + 1));
        }
        start = start + 1;
    }
    proof {
        if start < n {
            assert(s@.skip(start as int)[0] == s@[start as int]);
        }
        assert(trim_front(s@) == s@.skip(start as int));
    }
    let mut end: usize = n;
    proof {
        assert(s@.skip(start as int).take(n - start) =~= s@.skip(start as int));
    }
    while end > start && is_space_char(s.get_char(end - 1))
        invariant
            start <= end <= n,
            n == s@.len(),
            trim_back(trim_front(s@)) == trim_back(s@.skip(start as int).take(end - start)),
            start < n ==> !is_space(s@[start as int]),
        decreases end,
    {
        proof {
            let cur = s@.skip(start as int).take(end - start);
            assert(cur.last() == s@[end - 1]);
            assert(cur.drop_last() =~= s@.skip(start as int).take(end - 1 - start));
        }
        end = end - 1;
    }
    proof {
        let cur = s@.skip(start as int).take(end - start);
        if end > start {
            assert(cur.last() == s@[end - 1]);
        }
        assert(spec_trim(s@) == cur);
        assert(cur =~= s@.subrange(start as int, end as int));
    }
    String::from_str(s.substring_char(start, end))
}

/// Whether the login form trims this character, mirroring `is_space`.
fn is_space_char(c: char) -> (r: bool)
    ensures
        r == is_space(c),
{
    c == ' ' || c == '\t' || c == '\n' || c == '\r'
}

/// Index of `x` in `v`, scanning from the front.
pub open spec fn position_of(v: Seq<String>, x: Seq<char>) -> Option<int>
    decreases v.len(),
{
    if v.len() == 0 {
        None
    } else if v[0]@ == x {
        Some(0int)
    } else {
        match position_of(v.skip(1), x) {
            Some(i) => Some(i + 1),
            None => None,
        }
    }
}

/// Index of `x` in `v`, mirroring `position_of`.
pub fn position(v: &Vec<String>, x: &String) -> (r: Option<usize>)
    ensures
        match r {
            Some(i) => position_of(v@, x@) == Some(i as int),
            None => position_of(v@, x@) is None,
        },
{
    let mut i: usize = 0;
    proof {
        assert(v@.skip(0) =~= v@);
    }
    while i < v.len()
        invariant
            i <= v@.len(),
            position_of(v@, x@) == match position_of(v@.skip(i as int), x@) {
                Some(k) => Some(k + i),
                None => None::<int>,
            },
        decreases v@.len() - i,
    {
        proof {
            assert(v@.skip(i as int)[0] == v@[i as int]);
            assert(v@.skip(i as int).skip(1) =~= v@.skip(i + 1));
        }
        if v[i].eq(x) {
            return Some(i);
        }
        i = i + 1;
    }
    proof {
        assert(v@.skip(i as int).len() == 0);
    }
    None
}

/// The menu's state: the screen showing, the login form, and the current
/// selections.
pub struct Controls {
    pub screen: Screen,
    pub login_info: LoginInfo,
    pub selected_server_index: Option<usize>,
    pub is_selecting_language: bool,
    pub selected_language_index: Option<usize>,
}

impl Controls {
    /// Fresh controls on the login screen, with the saved username and
    /// default server filled in and the current selections located in the
    /// given lists.
    pub fn new(
        username: String,
        default_server: String,
        servers: &Vec<String>,
        language_identifiers: &Vec<String>,
        selected_language: &String,
    ) -> (r: Controls)
        ensures
            r.screen matches Screen::Login { focus, error } && focus == FocusedField::Username
                && error is None,
            r.login_info.username@ == username@,
            r.login_info.password@ == ""@,
            r.login_info.server@ == default_server@,
            match r.selected_server_index {
                Some(i) => position_of(servers@, default_server@) == Some(i as int),
                None => position_of(servers@, default_server@) is None,
            },
            !r.is_selecting_language,
            match r.selected_language_index {
                Some(i) => position_of(language_identifiers@, selected_language@) == Some(
                    i as int,
                ),
                None => position_of(language_identifiers@, selected_language@) is None,
            },
    {
        let selected_server_index = position(servers, &default_server);
        let selected_language_index = position(language_identifiers, selected_language);
        proof {
            reveal_strlit("");
            assert(""@ =~= Seq::<char>::empty());
        }
        Controls {
            screen: Screen::Login { focus: FocusedField::Username, error: None },
            login_info: LoginInfo {
                username,
                password: String::new(),
                server: default_server,
            },
            selected_server_index,
            is_selecting_language: false,
            selected_language_index,
        }
    }

    /// React to one interface message: adjust the menu's state and append
    /// whatever events the owning application must see.
    ///
    /// A quit request or a server deletion (with a server selected) goes
    /// out as an event.  Multiplayer switches to the connecting screen and
    /// emits a login attempt carrying the trimmed username and the form's
    /// password and server.  Server and language selections update the
    /// indices; typing updates the form; back, credits, servers and
    /// close-error drive the screen; cancel leaves the connecting screen
    /// and emits the cancellation.
    pub fn update(
        &mut self,
        message: Message,
        events: &mut Vec<Event>,
        servers: &Vec<String>,
        languages: &Vec<LanguageMetadata>,
    )
        requires
            message matches Message::ServerChanged(i) ==> i < servers@.len(),
            message matches Message::LanguageChanged(i) ==> i < languages@.len(),
        ensures
            match message {
                Message::Quit => final(events)@.len() == old(events)@.len() + 1 && final(events)@.last() is Quit && final(events)@.take(old(events)@.len() as int) == old(events)@,
                Message::Multiplayer => (final(self).screen is Connecting) && final(events)@.len() == old(events)@.len() + 1 && (final(events)@.last()
                    matches Event::LoginAttempt { username, password, server_address }
                    && username@ == spec_trim(old(self).login_info.username@) && password@ == old(self).login_info.password@ && server_address@ == old(self).login_info.server@),
                Message::Username(_) | Message::Password(_) | Message::Server(_)
                    | Message::ServerChanged(_) | Message::OpenLanguageMenu
                    | Message::FocusPassword | Message::CloseError | Message::Back
                    | Message::ShowServers | Message::ShowCredits => final(events)@ == old(events)@,
                Message::LanguageChanged(i) => final(self).selected_language_index == Some(i)
                    && final(events)@.len() == old(events)@.len() + 1 && (final(events)@.last()
                    matches Event::ChangeLanguage(m) && m == languages@[i as int]),
                Message::CancelConnect => final(events)@.len() == old(events)@.len() + 1 && final(events)@.last() is CancelLoginAttempt,
                Message::DeleteServer => match old(self).selected_server_index {
                    Some(i) => final(events)@.len() == old(events)@.len() + 1 && (final(events)@.last() matches Event::DeleteServer { server_index } && server_index == i),
                    None => final(events)@ == old(events)@,
                },
            },
            message matches Message::Username(u) ==> final(self).login_info.username == u,
            message matches Message::Password(p) ==> final(self).login_info.password == p,
            message matches Message::Server(s) ==> final(self).login_info.server == s,
            message matches Message::ServerChanged(i) ==> final(self).selected_server_index
                == Some(i) && final(self).login_info.server@ == servers@[i as int]@,
            message is Back ==> (final(self).screen matches Screen::Login { focus, error }
                && error is None),
            message is ShowCredits ==> final(self).screen is Credits,
            message is OpenLanguageMenu ==> final(self).is_selecting_language == !old(self).is_selecting_language,
            message is ShowServers ==> (if old(self).screen is Login {
                final(self).screen is Servers && (match final(self).selected_server_index {
                    Some(i) => position_of(servers@, old(self).login_info.server@) == Some(
                        i as int,
                    ),
                    None => position_of(servers@, old(self).login_info.server@) is None,
                })
            } else {
                final(self).screen == old(self).screen && final(self).selected_server_index == old(
                    self,
                ).selected_server_index
            }),
            message is FocusPassword ==> (match old(self).screen {
                Screen::Login { error, .. } => final(self).screen matches Screen::Login {
                    focus: f2,
                    error: e2,
                } && f2 == FocusedField::Password && e2 == error,
                _ => final(self).screen == old(self).screen,
            }),
            message is CloseError ==> (match old(self).screen {
                Screen::Login { focus, .. } => final(self).screen matches Screen::Login {
                    focus: f2,
                    error: e2,
                } && f2 == focus && e2 is None,
                _ => final(self).screen == old(self).screen,
            }),
    {
        match message {
            Message::Quit => {
                events.push(Event::Quit);
            },
            Message::Back => {
                self.screen = Screen::Login { focus: FocusedField::Username, error: None };
            },
            Message::ShowServers => {
                match &self.screen {
                    Screen::Login { .. } => {
                        self.selected_server_index = position(servers, &self.login_info.server);
                        self.screen = Screen::Servers;
                    },
                    _ => {},
                }
            },
            Message::ShowCredits => {
                self.screen = Screen::Credits;
            },
            Message::Multiplayer => {
                self.screen = Screen::Connecting;
                let username = trim_spaces(self.login_info.username.as_str());
                events.push(
                    Event::LoginAttempt {
                        username,
                        password: self.login_info.password.clone(),
                        server_address: self.login_info.server.clone(),
                    },
                );
            },
            Message::Username(new_value) => {
                self.login_info.username = new_value;
            },
            Message::LanguageChanged(new_value) => {
                self.selected_language_index = Some(new_value);
                events.push(Event::ChangeLanguage(languages[new_value].copied()));
            },
            Message::OpenLanguageMenu => {
                self.is_selecting_language = !self.is_selecting_language;
            },
            Message::Password(new_value) => {
                self.login_info.password = new_value;
            },
            Message::Server(new_value) => {
                self.login_info.server = new_value;
            },
            Message::ServerChanged(new_value) => {
                self.selected_server_index = Some(new_value);
                self.login_info.server = servers[new_value].clone();
            },
            Message::FocusPassword => {
                match &self.screen {
                    Screen::Login { error, .. } => {
                        let carried = match error {
                            Some(e) => Some(e.clone()),
                            None => None,
                        };
                        self.screen = Screen::Login {
                            focus: FocusedField::Password,
                            error: carried,
                        };
                    },
                    _ => {},
                }
            },
            Message::CancelConnect => {
                self.exit_connect_screen();
                events.push(Event::CancelLoginAttempt);
            },
            Message::CloseError => {
                match &self.screen {
                    Screen::Login { focus, .. } => {
                        let f = *focus;
                        self.screen = Screen::Login { focus: f, error: None };
                    },
                    _ => {},
                }
            },
            Message::DeleteServer => {
                match self.selected_server_index {
                    Some(server_index) => {
                        events.push(Event::DeleteServer { server_index });
                    },
                    None => {},
                }
            },
        }
    }

    /// Leave the connecting screen — the connection finished or failed —
    /// for a fresh login screen; other screens are untouched.
    pub fn exit_connect_screen(&mut self)
        ensures
            old(self).screen is Connecting ==> (final(self).screen matches Screen::Login {
                focus,
                error,
            } && focus == FocusedField::Username && error is None),
            !(old(self).screen is Connecting) ==> final(self).screen == old(self).screen,
            final(self).login_info == old(self).login_info,
            final(self).selected_server_index == old(self).selected_server_index,
            final(self).is_selecting_language == old(self).is_selecting_language,
            final(self).selected_language_index == old(self).selected_language_index,
    {
        match &self.screen {
            Screen::Connecting => {
                self.screen = Screen::Login { focus: FocusedField::Username, error: None };
            },
            _ => {},
        }
    }

    /// Show a connection error: from the connecting or login screen, land
    /// on the login screen carrying the error; other screens are untouched.
    pub fn connection_error(&mut self, error: String)
        ensures
            (old(self).screen is Connecting || old(self).screen is Login) ==> (final(self).screen
                matches Screen::Login { focus, error: e } && (e matches Some(msg) && msg@
                == error@)),
            !(old(self).screen is Connecting || old(self).screen is Login) ==> final(self).screen
                == old(self).screen,
    {
        match &self.screen {
            Screen::Connecting | Screen::Login { .. } => {
                self.screen = Screen::Login {
                    focus: FocusedField::Username,
                    error: Some(error),
                };
            },
            _ => {},
        }
    }

    /// Move focus to the next login input: username to password to server
    /// and around; outside the login screen nothing changes.
    pub fn tab(&mut self)
        ensures
            old(self).screen matches Screen::Login { focus, error } ==> final(self).screen
                matches Screen::Login { focus: f2, error: e2 } && e2 == error && f2 == (
            match focus {
                FocusedField::Username => FocusedField::Password,
                FocusedField::Password => FocusedField::Server,
                FocusedField::Server => FocusedField::Username,
            }),
            !(old(self).screen is Login) ==> final(self).screen == old(self).screen,
    {
        match &self.screen {
            Screen::Login { focus, error } => {
                let next = match focus {
                    FocusedField::Username => FocusedField::Password,
                    FocusedField::Password => FocusedField::Server,
                    FocusedField::Server => FocusedField::Username,
                };
                let carried = match error {
                    Some(e) => Some(e.clone()),
                    None => None,
                };
                self.screen = Screen::Login { focus: next, error: carried };
            },
            _ => {},
        }
    }
}

} // verus!
