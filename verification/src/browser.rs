//! State of the overlay browser shell: tabs, user messages, and how an
//! address typed in the bar selects a tab. The widget tree itself is drawn
//! outside the library.

use crate::textutil::{contains_seq, find_sub, lower_of, lowercase, string_to_chars};
use vstd::prelude::*;

verus! {

/// A browser tab.
#[derive(Clone, Debug, PartialEq, Eq, Structural)]
pub enum Tab {
    Home,
    ChatSite,
    ExampleSite,
}

impl Tab {
    /// The tab's sidebar label.
    pub fn label(&self) -> (r: &'static str)
        ensures
            *self == Tab::Home ==> r@ == "Home"@,
            *self == Tab::ChatSite ==> r@ == "Chat"@,
            *self == Tab::ExampleSite ==> r@ == "Example"@,
    {
        match self {
            Tab::Home => "Home",
            Tab::ChatSite => "Chat",
            Tab::ExampleSite => "Example",
        }
    }

    /// Every tab, in sidebar order.
    pub fn all() -> (r: Vec<Tab>)
        ensures
            r@ == seq![Tab::Home, Tab::ChatSite, Tab::ExampleSite],
    {
        let mut v: Vec<Tab> = Vec::new();
        v.push(Tab::Home);
        v.push(Tab::ChatSite);
        v.push(Tab::ExampleSite);
        proof {
            assert(v@ =~= seq![Tab::Home, Tab::ChatSite, Tab::ExampleSite]);
        }
        v
    }
}

/// A user interaction.
#[derive(Debug)]
pub enum Message {
    SwitchTab(Tab),
    AddressChanged(String),
    NavigateTo,
    Refresh,
}

/// Which tab an address in the bar selects: its lower-cased form is
/// searched for "chat", then "example"; anything else goes home.
pub open spec fn classify_address(address: Seq<char>) -> Tab {
    let low = lower_of(address);
    if contains_seq(low, "chat"@) {
        Tab::ChatSite
    } else if contains_seq(low, "example"@) {
        Tab::ExampleSite
    } else {
        Tab::Home
    }
}

/// The browser shell's state: the open tab and the address bar.
pub struct FreedomBrowser {
    pub current_tab: Tab,
    pub input_value: String,
}

impl FreedomBrowser {
    /// A fresh browser: the home tab, an empty address bar.
    pub fn new() -> (r: FreedomBrowser)
        ensures
            r.current_tab == Tab::Home,
            r.input_value@ == Seq::<char>::empty(),
    {
        FreedomBrowser { current_tab: Tab::Home, input_value: String::new() }
    }

    /// The sidebar icon of a tab.
    pub fn get_icon(&self, tab: &Tab) -> (r: &'static str)
        ensures
            *tab == Tab::Home ==> r@ == "\u{1F3E0}"@,
            *tab == Tab::ChatSite ==> r@ == "\u{1F4AC}"@,
            *tab == Tab::ExampleSite ==> r@ == "\u{1F4D6}"@,
    {
        match tab {
            Tab::Home => "\u{1F3E0}",
            Tab::ChatSite => "\u{1F4AC}",
            Tab::ExampleSite => "\u{1F4D6}",
        }
    }

    /// Apply one user interaction: switching tabs clears the bar, typing
    /// replaces the bar, navigating classifies a nonempty address and
    /// clears the bar, and a refresh changes nothing.
    pub fn update(&mut self, msg: Message)
        ensures
            match msg {
                Message::SwitchTab(tab) => final(self).current_tab == tab
                    && final(self).input_value@ == Seq::<char>::empty(),
                Message::AddressChanged(v) => final(self).current_tab == old(self).current_tab
                    && final(self).input_value@ == v@,
                Message::NavigateTo => if old(self).input_value@.len() == 0 {
                    final(self).current_tab == old(self).current_tab && final(self).input_value@
                        == old(self).input_value@
                } else {
                    final(self).current_tab == classify_address(old(self).input_value@)
                        && final(self).input_value@ == Seq::<char>::empty()
                },
                Message::Refresh => final(self).current_tab == old(self).current_tab
                    && final(self).input_value@ == old(self).input_value@,
            },
    {
        match msg {
            Message::SwitchTab(tab) => {
                self.current_tab = tab;
                self.input_value = String::new();
            },
            Message::AddressChanged(v) => {
                self.input_value = v;
            },
            Message::NavigateTo => {
                if !self.input_value.as_str().is_empty() {
                    let low = lowercase(self.input_value.as_str());
                    let low_chars = string_to_chars(low.as_str());
                    let chat = string_to_chars("chat");
                    let example = string_to_chars("example");
                    if find_sub(&low_chars, &chat) {
                        self.current_tab = Tab::ChatSite;
                    } else if find_sub(&low_chars, &example) {
                        self.current_tab = Tab::ExampleSite;
                    } else {
                        self.current_tab = Tab::Home;
                    }
                    self.input_value = String::new();
                }
            },
            Message::Refresh => {},
        }
    }

    /// The title and body text of the page the open tab shows.
    pub fn page_text(&self) -> (r: (&'static str, &'static str))
        ensures
            self.current_tab == Tab::Home ==> r.0@ == "\u{1F3E0} Home"@,
            self.current_tab == Tab::ChatSite ==> r.0@ == "\u{1F4AC} Freedom Chat"@,
            self.current_tab == Tab::ExampleSite ==> r.0@ == "\u{1F4D6} Example Site"@,
    {
        match self.current_tab {
            Tab::Home => (
                "\u{1F3E0} Home",
                "Welcome to Freedom Browser \u{1F310}\n\nYou are browsing the decentralized Freedom Network.\n\nQuick Start:\n\u{2022} Visit Chat for messaging\n\u{2022} Explore Example for more information\n\u{2022} Type addresses in the bar to navigate\n\nConnected to: 127.0.0.1:5000\nStatus: Active (1 peers connected)",
            ),
            Tab::ChatSite => (
                "\u{1F4AC} Freedom Chat",
                "Welcome to Freedom Chat!\n\nA decentralized, peer-to-peer messaging platform.\n\nFeatures:\n\u{2022} End-to-end encrypted messages\n\u{2022} No central server required\n\u{2022} Anonymous messaging\n\u{2022} Message verification\n\nStart chatting with friends on the Freedom network!",
            ),
            Tab::ExampleSite => (
                "\u{1F4D6} Example Site",
                "Example Site\n\nThis is a demonstration site on the Freedom Network.\n\nThe Freedom Network is a decentralized internet built on QUIC protocol with:\n\u{2022} Multi-hop routing\n\u{2022} Cryptographic verification\n\u{2022} Peer discovery\n\u{2022} Content distribution\n\nVisit other sites by clicking tabs or typing in the address bar",
            ),
        }
    }
}

} // verus!
