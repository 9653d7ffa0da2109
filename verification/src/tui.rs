//! The terminal interface's state: the current view, the message log, the
//! favourite services, and what each key does to them. Drawing the
//! screen and reading keys happen outside this module.

use vstd::prelude::*;
use crate::table::{find_text, lemma_remove_keeps_distinct, string_views};
use vstd::view::View as _;

verus! {

/// The screens of the interface, in tab order.
#[derive(Debug, Clone, Copy, PartialEq, Eq, Structural)]
pub enum View {
    Dashboard,
    Favorites,
    Services,
    Settings,
    Keygen,
    Send,
    Receive,
    Node,
    SelfTest,
    Help,
}

impl View {
    /// The position of the view's tab, from 0.
    pub fn tab_index(self) -> (r: usize)
        ensures
            r == view_tab(self),
    {
        match self {
            View::Dashboard => 0,
            View::Favorites => 1,
            View::Services => 2,
            View::Settings => 3,
            View::Keygen => 4,
            View::Send => 5,
            View::Receive => 6,
            View::Node => 7,
            View::SelfTest => 8,
            View::Help => 9,
        }
    }

    /// The view named on the command line: "keygen", "send", "receive",
    /// "node", "selftest" or "help"; any other name opens the dashboard.
    pub fn from_name(name: &str) -> (r: View)
        ensures
            r == view_named(name@),
    {
        proof {
            reveal_strlit("keygen");
            reveal_strlit("send");
            reveal_strlit("receive");
            reveal_strlit("node");
            reveal_strlit("selftest");
            reveal_strlit("help");
        }
        let n = name.to_string();
        if n == "keygen".to_string() { View::Keygen }
        else if n == "send".to_string() { View::Send }
        else if n == "receive".to_string() { View::Receive }
        else if n == "node".to_string() { View::Node }
        else if n == "selftest".to_string() { View::SelfTest }
        else if n == "help".to_string() { View::Help }
        else { View::Dashboard }
    }
}

/// The view a command-line name opens.
pub open spec fn view_named(name: Seq<char>) -> View {
    if name == "keygen"@ { View::Keygen }
    else if name == "send"@ { View::Send }
    else if name == "receive"@ { View::Receive }
    else if name == "node"@ { View::Node }
    else if name == "selftest"@ { View::SelfTest }
    else if name == "help"@ { View::Help }
    else { View::Dashboard }
}

/// The position of a view's tab.
pub open spec fn view_tab(v: View) -> nat {
    match v {
        View::Dashboard => 0,
        View::Favorites => 1,
        View::Services => 2,
        View::Settings => 3,
        View::Keygen => 4,
        View::Send => 5,
        View::Receive => 6,
        View::Node => 7,
        View::SelfTest => 8,
        View::Help => 9,
    }
}

/// The view that a digit key selects: '1' for the first tab up to '9'.
pub open spec fn view_for_key(c: char) -> Option<View> {
    if c == '1' { Some(View::Dashboard) }
    else if c == '2' { Some(View::Favorites) }
    else if c == '3' { Some(View::Services) }
    else if c == '4' { Some(View::Settings) }
    else if c == '5' { Some(View::Keygen) }
    else if c == '6' { Some(View::Send) }
    else if c == '7' { Some(View::Receive) }
    else if c == '8' { Some(View::Node) }
    else if c == '9' { Some(View::SelfTest) }
    else { None }
}

/// The kind of a log message.
#[derive(Debug, Clone, Copy, PartialEq, Eq, Structural)]
pub enum MessageKind {
    Info,
    Success,
    Error,
    Warn,
}

/// The symbol shown before a message of each kind.
pub open spec fn kind_symbol(k: MessageKind) -> Seq<char> {
    match k {
        MessageKind::Info => "ℹ"@,
        MessageKind::Success => "✔"@,
        MessageKind::Error => "✖"@,
        MessageKind::Warn => "⚠"@,
    }
}

impl MessageKind {
    /// The symbol shown before a message of this kind.
    pub fn symbol(self) -> (r: &'static str)
        ensures
            r@ == kind_symbol(self),
    {
        proof {
            reveal_strlit("ℹ");
            reveal_strlit("✔");
            reveal_strlit("✖");
            reveal_strlit("⚠");
        }
        match self {
            MessageKind::Info => "ℹ",
            MessageKind::Success => "✔",
            MessageKind::Error => "✖",
            MessageKind::Warn => "⚠",
        }
    }
}

/// A key press, as far as the interface tells keys apart.
#[derive(Debug, Clone, Copy, PartialEq, Eq, Structural)]
pub enum Key {
    Char(char),
    Esc,
    Other,
}

/// The services listed on the services screen, in order.
pub open spec fn service_names() -> Seq<Seq<char>> {
    seq!["Polygone"@, "Polygone-Brain"@, "Polygone-CLI"@, "Polygone-Drive"@, "Polygone-Hide"@,
        "Polygone-Petals"@, "Polygone-Shell"@, "Polygone-Server"@]
}

/// The name of the service at position `i` of the services screen.
pub fn service_name(i: usize) -> (r: Option<&'static str>)
    ensures
        r is Some <==> i < service_names().len(),
        r matches Some(s) ==> s@ == service_names()[i as int],
{
    proof {
        reveal_strlit("Polygone");
        reveal_strlit("Polygone-Brain");
        reveal_strlit("Polygone-CLI");
        reveal_strlit("Polygone-Drive");
        reveal_strlit("Polygone-Hide");
        reveal_strlit("Polygone-Petals");
        reveal_strlit("Polygone-Shell");
        reveal_strlit("Polygone-Server");
    }
    if i == 0 { Some("Polygone") }
    else if i == 1 { Some("Polygone-Brain") }
    else if i == 2 { Some("Polygone-CLI") }
    else if i == 3 { Some("Polygone-Drive") }
    else if i == 4 { Some("Polygone-Hide") }
    else if i == 5 { Some("Polygone-Petals") }
    else if i == 6 { Some("Polygone-Shell") }
    else if i == 7 { Some("Polygone-Server") }
    else { None }
}

/// The message log keeps at most this many messages.
pub const MAX_MESSAGES: usize = 100;

/// The log after adding a message: the oldest dropped first when the log
/// is full.
pub open spec fn logged(log: Seq<(MessageKind, String)>, m: (MessageKind, String)) -> Seq<(MessageKind, String)> {
    if log.len() >= MAX_MESSAGES { log.skip(1).push(m) } else { log.push(m) }
}

/// The kind and text of each message of a log.
pub open spec fn message_views(log: Seq<(MessageKind, String)>) -> Seq<(MessageKind, Seq<char>)> {
    Seq::new(log.len(), |i: int| (log[i].0, log[i].1@))
}

/// The log's contents after adding a message: the oldest dropped first
/// when the log is full.
pub open spec fn logged_views(log: Seq<(MessageKind, Seq<char>)>, m: (MessageKind, Seq<char>)) -> Seq<(MessageKind, Seq<char>)> {
    if log.len() >= MAX_MESSAGES { log.skip(1).push(m) } else { log.push(m) }
}

/// The message logged when `name` is toggled in the favourites.
pub open spec fn toggle_text(favs: Seq<Seq<char>>, name: Seq<char>) -> Seq<char> {
    if favs.contains(name) { "Removed "@ + name + " from favorites"@ } else { "Added "@ + name + " to favorites"@ }
}

/// The favourites after toggling `name`: taken out where present, added at
/// the end where not.
pub open spec fn toggled(favs: Seq<Seq<char>>, name: Seq<char>) -> Seq<Seq<char>> {
    if favs.contains(name) { favs.remove(favs.index_of(name)) } else { favs.push(name) }
}

/// Toggling a service twice gives back the favourites: exactly, when it
/// was not a favourite; as the same set of names, when it was (it then
/// comes back at the end).
pub proof fn law_toggle_twice(favs: Seq<Seq<char>>, name: Seq<char>)
    requires
        favs.no_duplicates(),
    ensures
        !favs.contains(name) ==> toggled(toggled(favs, name), name) == favs,
        forall|x: Seq<char>| toggled(toggled(favs, name), name).contains(x) <==> favs.contains(x),
{
    if !favs.contains(name) {
        let once = favs.push(name);
        assert(once[favs.len() as int] == name);
        assert(once.contains(name));
        assert forall|i: int| 0 <= i < favs.len() implies once[i] != name by {
            assert(favs.contains(favs[i]));
        }
        assert(once.no_duplicates());
        crate::table::lemma_index_unique(once, name, favs.len() as int);
        assert(once.remove(favs.len() as int) =~= favs);
    } else {
        let i = favs.index_of(name);
        favs.index_of_first_ensures(name);
        let once = favs.remove(i);
        assert(!once.contains(name)) by {
            if once.contains(name) {
                let j = choose|j: int| 0 <= j < once.len() && #[trigger] once[j] == name;
                if j < i { assert(favs[j] == name); } else { assert(favs[j + 1] == name); }
            }
        }
        let twice = once.push(name);
        assert forall|x: Seq<char>| twice.contains(x) <==> favs.contains(x) by {
            if favs.contains(x) && x != name {
                let j = choose|j: int| 0 <= j < favs.len() && #[trigger] favs[j] == x;
                if j < i { assert(twice[j] == x); } else { assert(j != i); assert(twice[j - 1] == x); }
            }
            if twice.contains(x) {
                let j = choose|j: int| 0 <= j < twice.len() && #[trigger] twice[j] == x;
                if j < once.len() {
                    if j < i { assert(favs[j] == x); } else { assert(favs[j + 1] == x); }
                }
            }
            if x == name { assert(twice[once.len() as int] == x); }
        }
    }
}

/// The interface's state.
pub struct App {
    /// The view shown.
    pub current_view: View,
    /// Whether the user asked to quit.
    pub should_quit: bool,
    /// The message log, oldest first.
    pub messages: Vec<(MessageKind, String)>,
    /// Frames drawn so far.
    pub tick: u64,
    /// Whether the pause dialog is shown.
    pub show_pause_modal: bool,
    /// The favourite services, each once.
    pub favorites: Vec<String>,
    /// The service selected on the services screen.
    pub selected_service: usize,
}

impl App {
    /// Whether each favourite occurs once.
    pub open spec fn wf(&self) -> bool {
        string_views(self.favorites@).no_duplicates()
    }

    /// The interface opening on `initial_view`, with the welcome message
    /// and the given favourites (each kept once, in first-seen order).
    pub fn new(initial_view: View, favorites: Vec<String>) -> (r: Self)
        ensures
            r.wf(),
            r.current_view == initial_view,
            !r.should_quit,
            r.messages@.len() == 1,
            r.messages@[0].0 == MessageKind::Info,
            r.messages@[0].1@ == "Welcome to POLYGONE v1.0.0 — post-quantum ephemeral network"@,
            r.tick == 0,
            !r.show_pause_modal,
            r.selected_service == 0,
            forall|s: Seq<char>| string_views(r.favorites@).contains(s) <==> string_views(favorites@).contains(s),
    {
        let mut favs: Vec<String> = Vec::new();
        let mut i: usize = 0;
        while i < favorites.len()
            invariant
                i <= favorites@.len(),
                string_views(favs@).no_duplicates(),
                forall|s: Seq<char>| string_views(favs@).contains(s) <==> string_views(favorites@).take(i as int).contains(s),
            decreases favorites.len() - i,
        {
            let name = favorites[i].as_str();
            let ghost before = favs@;
            proof {
                assert(string_views(favorites@).take(i + 1) =~= string_views(favorites@).take(i as int).push(name@));
            }
            let ghost prefix = string_views(favorites@).take(i as int);
            let ghost next = string_views(favorites@).take(i + 1);
            proof {
                assert forall|x: Seq<char>| next.contains(x) <==> (prefix.contains(x) || x == name@) by {
                    if next.contains(x) {
                        let t = choose|t: int| 0 <= t < next.len() && #[trigger] next[t] == x;
                        if t < i { assert(prefix[t] == x); }
                    }
                    if prefix.contains(x) {
                        let t = choose|t: int| 0 <= t < prefix.len() && #[trigger] prefix[t] == x;
                        assert(next[t] == x);
                    }
                    if x == name@ { assert(next[i as int] == x); }
                }
            }
            match find_text(&favs, name) {
                Some(_) => {},
                None => {
                    favs.push(name.to_string());
                    proof {
                        let sv = string_views(favs@);
                        assert(sv =~= string_views(before).push(name@));
                        assert forall|x: Seq<char>| sv.contains(x) <==> (string_views(before).contains(x) || x == name@) by {
                            if sv.contains(x) {
                                let t = choose|t: int| 0 <= t < sv.len() && #[trigger] sv[t] == x;
                                if t < sv.len() - 1 { assert(string_views(before)[t] == x); }
                            }
                            if string_views(before).contains(x) {
                                let t = choose|t: int| 0 <= t < string_views(before).len() && #[trigger] string_views(before)[t] == x;
                                assert(sv[t] == x);
                            }
                            if x == name@ { assert(sv[sv.len() - 1] == x); }
                        }
                        assert forall|a: int, b: int| 0 <= a < sv.len() && 0 <= b < sv.len() && a != b implies
                            sv[a] != sv[b] by {
                            if b == sv.len() - 1 {
                                assert(string_views(before)[a] == sv[a]);
                            } else if a == sv.len() - 1 {
                                assert(string_views(before)[b] == sv[b]);
                            }
                        }
                    }
                },
            }
            i = i + 1;
        }
        assert(string_views(favorites@).take(favorites@.len() as int) =~= string_views(favorites@));
        proof { reveal_strlit("Welcome to POLYGONE v1.0.0 — post-quantum ephemeral network"); }
        let mut messages: Vec<(MessageKind, String)> = Vec::new();
        messages.push((MessageKind::Info, "Welcome to POLYGONE v1.0.0 — post-quantum ephemeral network".to_string()));
        App {
            current_view: initial_view,
            should_quit: false,
            messages,
            tick: 0,
            show_pause_modal: false,
            favorites: favs,
            selected_service: 0,
        }
    }

    /// Add a message to the log, dropping the oldest when the log is full.
    pub fn push_msg(&mut self, kind: MessageKind, msg: String)
        ensures
            final(self).messages@ == logged(old(self).messages@, (kind, msg)),
            message_views(final(self).messages@) == logged_views(message_views(old(self).messages@), (kind, msg@)),
            final(self).current_view == old(self).current_view,
            final(self).should_quit == old(self).should_quit,
            final(self).tick == old(self).tick,
            final(self).show_pause_modal == old(self).show_pause_modal,
            final(self).favorites == old(self).favorites,
            final(self).selected_service == old(self).selected_service,
    {
        let ghost m = msg@;
        if self.messages.len() >= MAX_MESSAGES {
            let _ = self.messages.remove(0);
            assert(self.messages@ =~= old(self).messages@.skip(1));
        }
        self.messages.push((kind, msg));
        assert(message_views(self.messages@) =~= logged_views(message_views(old(self).messages@), (kind, m)));
    }

    /// Toggle the selected service in the favourites and log it; `false`
    /// when no service is selected.
    fn toggle_selected(&mut self) -> (changed: bool)
        requires
            old(self).wf(),
        ensures
            final(self).wf(),
            final(self).current_view == old(self).current_view,
            final(self).should_quit == old(self).should_quit,
            final(self).show_pause_modal == old(self).show_pause_modal,
            final(self).selected_service == old(self).selected_service,
            final(self).tick == old(self).tick,
            changed <==> old(self).selected_service < service_names().len(),
            changed ==> string_views(final(self).favorites@)
                == toggled(string_views(old(self).favorites@), service_names()[old(self).selected_service as int]),
            changed ==> message_views(final(self).messages@) == logged_views(message_views(old(self).messages@),
                (MessageKind::Info, toggle_text(string_views(old(self).favorites@), service_names()[old(self).selected_service as int]))),
            !changed ==> final(self).favorites == old(self).favorites && final(self).messages == old(self).messages,
    {
        let selected = match service_name(self.selected_service) {
            Some(s) => s,
            None => return false,
        };
        let ghost favs = string_views(self.favorites@);
        proof {
            reveal_strlit("Removed ");
            reveal_strlit(" from favorites");
            reveal_strlit("Added ");
            reveal_strlit(" to favorites");
        }
        let msg = match find_text(&self.favorites, selected) {
            Some(i) => {
                let _ = self.favorites.remove(i);
                proof {
                    assert(favs[i as int] == selected@);
                    crate::table::lemma_index_unique(favs, selected@, i as int);
                    assert(string_views(self.favorites@) =~= favs.remove(i as int));
                    lemma_remove_keeps_distinct(favs, i as int);
                }
                let mut m = "Removed ".to_string();
                m.push_str(selected);
                m.push_str(" from favorites");
                m
            },
            None => {
                self.favorites.push(selected.to_string());
                proof {
                    assert(string_views(self.favorites@) =~= favs.push(selected@));
                    assert forall|a: int, b: int| 0 <= a < string_views(self.favorites@).len()
                        && 0 <= b < string_views(self.favorites@).len() && a != b implies
                        string_views(self.favorites@)[a] != string_views(self.favorites@)[b] by {
                        if b == favs.len() {
                            assert(favs[a] == string_views(self.favorites@)[a]);
                        } else if a == favs.len() {
                            assert(favs[b] == string_views(self.favorites@)[b]);
                        }
                    }
                }
                let mut m = "Added ".to_string();
                m.push_str(selected);
                m.push_str(" to favorites");
                m
            },
        };
        self.push_msg(MessageKind::Info, msg);
        true
    }

    /// What a key press does. `q` and Escape quit, and so does `c` with
    /// Control; `f` on the services screen toggles the selected service in
    /// the favourites and logs it, and the result is then `true`: the
    /// favourites are to be saved; the digits 1 to 9 switch to the view of
    /// that tab and close the pause dialog; other keys do nothing.
    pub fn handle_key(&mut self, key: Key, control: bool) -> (save: bool)
        requires
            old(self).wf(),
        ensures
            final(self).wf(),
            final(self).tick == old(self).tick,
            final(self).selected_service == old(self).selected_service,
            save <==> (key == Key::Char('f') && old(self).current_view == View::Services
                && old(self).selected_service < service_names().len()),
            save ==> string_views(final(self).favorites@)
                == toggled(string_views(old(self).favorites@), service_names()[old(self).selected_service as int]),
            save ==> message_views(final(self).messages@) == logged_views(message_views(old(self).messages@),
                (MessageKind::Info, toggle_text(string_views(old(self).favorites@), service_names()[old(self).selected_service as int]))),
            !save ==> final(self).favorites == old(self).favorites && final(self).messages == old(self).messages,
            final(self).should_quit == (old(self).should_quit || key == Key::Esc || key == Key::Char('q')
                || (key == Key::Char('c') && control)),
            key matches Key::Char(c) ==> (view_for_key(c) matches Some(v) ==>
                final(self).current_view == v && !final(self).show_pause_modal),
            !(key matches Key::Char(c) && view_for_key(c) is Some) ==>
                final(self).current_view == old(self).current_view
                && final(self).show_pause_modal == old(self).show_pause_modal,
    {
        match key {
            Key::Esc => {
                self.should_quit = true;
                false
            },
            Key::Char(c) => {
                if c == 'q' {
                    self.should_quit = true;
                    return false;
                }
                if c == 'c' && control {
                    self.should_quit = true;
                    return false;
                }
                if c == 'f' {
                    if self.current_view == View::Services {
                        return self.toggle_selected();
                    }
                    return false;
                }
                let v = if c == '1' { Some(View::Dashboard) }
                    else if c == '2' { Some(View::Favorites) }
                    else if c == '3' { Some(View::Services) }
                    else if c == '4' { Some(View::Settings) }
                    else if c == '5' { Some(View::Keygen) }
                    else if c == '6' { Some(View::Send) }
                    else if c == '7' { Some(View::Receive) }
                    else if c == '8' { Some(View::Node) }
                    else if c == '9' { Some(View::SelfTest) }
                    else { None };
                match v {
                    Some(view) => {
                        self.current_view = view;
                        self.show_pause_modal = false;
                    },
                    None => {},
                }
                false
            },
            Key::Other => false,
        }
    }
}

} // verus!
