//! What providers give back, and how they describe themselves.

use vstd::prelude::*;
use vstd::string::*;

use crate::keyed::TextMap;
use crate::text::texts;

verus! {

/// What kind of thing an item is.
#[derive(Debug, Clone, Copy, PartialEq, Eq, Structural)]
pub enum ItemType {
    Regular,
    File,
}

/// Where a query matched.
#[derive(Debug, PartialEq, Eq)]
pub struct FuzzyInfo {
    pub start: usize,
    pub field: String,
    pub positions: Vec<usize>,
}

/// A result of a query.
#[derive(Debug, PartialEq, Eq)]
pub struct Item {
    pub identifier: String,
    pub text: String,
    pub subtext: String,
    pub icon: String,
    pub provider: String,
    pub score: i32,
    pub fuzzyinfo: Option<FuzzyInfo>,
    pub item_type: ItemType,
    pub mimetype: String,
    pub preview: String,
    pub preview_type: String,
    pub state: Vec<String>,
    pub actions: Vec<String>,
    pub icon_path: Option<String>,
    pub thumbnail: Option<String>,
}

impl Item {
    /// Whether nothing is set but what an item begins with.
    pub open spec fn is_plain(
        self,
        provider: Seq<char>,
        identifier: Seq<char>,
        text: Seq<char>,
    ) -> bool {
        &&& self.provider@ == provider
        &&& self.identifier@ == identifier
        &&& self.text@ == text
        &&& self.subtext@.len() == 0
        &&& self.icon@.len() == 0
        &&& self.score == 0
        &&& self.fuzzyinfo is None
        &&& self.item_type == ItemType::Regular
        &&& self.mimetype@.len() == 0
        &&& self.preview@.len() == 0
        &&& self.preview_type@.len() == 0
        &&& self.state@.len() == 0
        &&& self.actions@.len() == 0
        &&& self.icon_path is None
        &&& self.thumbnail is None
    }

    /// An item of a provider, with nothing else set.
    pub fn new(provider: &str, identifier: &str, text: &str) -> (r: Item)
        ensures
            r.is_plain(provider@, identifier@, text@),
    {
        Item {
            identifier: identifier.to_owned(),
            text: text.to_owned(),
            subtext: String::new(),
            icon: String::new(),
            provider: provider.to_owned(),
            score: 0,
            fuzzyinfo: None,
            item_type: ItemType::Regular,
            mimetype: String::new(),
            preview: String::new(),
            preview_type: String::new(),
            state: Vec::new(),
            actions: Vec::new(),
            icon_path: None,
            thumbnail: None,
        }
    }
}

/// What an action is and needs.
#[derive(Debug, PartialEq, Eq)]
pub struct ActionCapability {
    pub label: String,
    pub needs_args: bool,
    pub destructive: bool,
    pub async_action: bool,
    pub terminal: bool,
    pub confirmation: bool,
}

impl ActionCapability {
    /// Whether the action has that label and needs nothing special.
    pub open spec fn is_plain(self, label: Seq<char>) -> bool {
        self.label@ == label && !self.needs_args && !self.destructive && !self.async_action
            && !self.terminal && !self.confirmation
    }

    /// Whether the action has that label and goes on after it was started.
    pub open spec fn is_async(self, label: Seq<char>) -> bool {
        self.async_action && (ActionCapability { async_action: false, ..self }).is_plain(label)
    }

    /// Whether the action has that label and destroys something.
    pub open spec fn is_destructive(self, label: Seq<char>) -> bool {
        self.destructive && self.confirmation && (ActionCapability {
            destructive: false,
            confirmation: false,
            ..self
        }).is_plain(label)
    }

    /// An action that needs nothing special.
    pub fn new(label: &str) -> (r: ActionCapability)
        ensures
            r.is_plain(label@),
    {
        ActionCapability {
            label: label.to_owned(),
            needs_args: false,
            destructive: false,
            async_action: false,
            terminal: false,
            confirmation: false,
        }
    }

    /// The action as one that destroys something, which has to be confirmed.
    pub fn destructive(self) -> (r: ActionCapability)
        ensures
            r == (ActionCapability { destructive: true, confirmation: true, ..self }),
    {
        ActionCapability { destructive: true, confirmation: true, ..self }
    }

    /// The action as one that takes arguments.
    pub fn needs_args(self) -> (r: ActionCapability)
        ensures
            r == (ActionCapability { needs_args: true, ..self }),
    {
        ActionCapability { needs_args: true, ..self }
    }

    /// The action as one that goes on after it was started.
    pub fn async_action(self) -> (r: ActionCapability)
        ensures
            r == (ActionCapability { async_action: true, ..self }),
    {
        ActionCapability { async_action: true, ..self }
    }

    /// An action that is described in the same way.
    pub fn copy(&self) -> (r: ActionCapability)
        ensures
            r == *self,
    {
        ActionCapability {
            label: self.label.clone(),
            needs_args: self.needs_args,
            destructive: self.destructive,
            async_action: self.async_action,
            terminal: self.terminal,
            confirmation: self.confirmation,
        }
    }
}

/// What a provider can do.
#[derive(Debug)]
pub struct ProviderCapability {
    pub name: String,
    pub name_pretty: String,
    pub description: String,
    pub icon: String,
    pub prefixes: Vec<String>,
    pub actions: TextMap<ActionCapability>,
    pub supports_query: bool,
    pub supports_activate: bool,
    pub supports_streaming: bool,
    pub supports_subscriptions: bool,
    pub emits_events: bool,
}

impl ProviderCapability {
    /// Whether this is what another can do, reached by the given prefixes.
    pub open spec fn is_reached_by(
        self,
        other: ProviderCapability,
        prefixes: Seq<Seq<char>>,
    ) -> bool {
        &&& texts(self.prefixes@) == prefixes
        &&& self.actions.entries@ == other.actions.entries@
        &&& self == (ProviderCapability {
            prefixes: self.prefixes,
            actions: self.actions,
            ..other
        })
    }

    /// What the provider can do, reached by the given prefixes.
    pub fn with_prefixes(&self, prefixes: Vec<String>) -> (r: ProviderCapability)
        ensures
            r.is_reached_by(*self, texts(prefixes@)),
    {
        let entries = &self.actions.entries;
        let mut out: Vec<(String, ActionCapability)> = Vec::new();
        let mut i: usize = 0;
        while i < entries.len()
            invariant
                i <= entries@.len(),
                out@ =~= entries@.take(i as int),
            decreases entries.len() - i,
        {
            out.push((entries[i].0.clone(), entries[i].1.copy()));
            i += 1;
        }
        assert(out@ =~= entries@);
        ProviderCapability {
            name: self.name.clone(),
            name_pretty: self.name_pretty.clone(),
            description: self.description.clone(),
            icon: self.icon.clone(),
            prefixes,
            actions: TextMap { entries: out },
            supports_query: self.supports_query,
            supports_activate: self.supports_activate,
            supports_streaming: self.supports_streaming,
            supports_subscriptions: self.supports_subscriptions,
            emits_events: self.emits_events,
        }
    }
}

/// The map of a list of actions; of two with the same name the later counts.
pub open spec fn actions_of(actions: Seq<(&str, ActionCapability)>) -> Map<
    Seq<char>,
    ActionCapability,
>
    decreases actions.len(),
{
    if actions.len() == 0 {
        Map::empty()
    } else {
        actions_of(actions.drop_last()).insert(actions.last().0@, actions.last().1)
    }
}

/// The map of a list of actions.
pub fn action_map(actions: Vec<(&str, ActionCapability)>) -> (r: TextMap<ActionCapability>)
    ensures
        r.wf(),
        r@ == actions_of(actions@),
{
    let mut out: TextMap<ActionCapability> = TextMap::new();
    let mut i: usize = 0;
    assert(actions@.take(0) =~= Seq::empty());
    while i < actions.len()
        invariant
            i <= actions@.len(),
            out.wf(),
            out@ == actions_of(actions@.take(i as int)),
        decreases actions.len() - i,
    {
        assert(actions@.take(i + 1).drop_last() =~= actions@.take(i as int));
        out.insert(actions[i].0.to_owned(), actions[i].1.copy());
        i += 1;
    }
    assert(actions@.take(i as int) =~= actions@);
    out
}

/// An action that is named leads to what it can do, and where it is named twice the last counts.
pub proof fn an_action_leads_to_what_it_can_do(
    actions: Seq<(&str, ActionCapability)>,
    action: (&str, ActionCapability),
    name: Seq<char>,
)
    ensures
        actions_of(actions.push(action)).dom().contains(action.0@),
        actions_of(actions.push(action))[action.0@] == action.1,
        name != action.0@ ==> actions_of(actions.push(action)).dom().contains(name) == actions_of(
            actions,
        ).dom().contains(name),
        name != action.0@ && actions_of(actions).dom().contains(name) ==> actions_of(
            actions.push(action),
        )[name] == actions_of(actions)[name],
        actions_of(Seq::empty()) == Map::<Seq<char>, ActionCapability>::empty(),
{
    assert(actions.push(action).drop_last() =~= actions);
}

/// An action that destroys something asks before it does, and a plain one neither destroys nor asks.
pub proof fn what_destroys_asks_first(a: ActionCapability, label: Seq<char>)
    ensures
        a.is_destructive(label) ==> a.destructive && a.confirmation && !a.async_action && !a.terminal
            && a.label@ == label,
        a.is_async(label) ==> a.async_action && !a.destructive && !a.confirmation && a.label@ == label,
        a.is_plain(label) ==> !a.destructive && !a.confirmation && !a.async_action && !a.needs_args
            && !a.terminal && a.label@ == label,
{
}

/// A result that was just made names itself and says nothing more.
pub proof fn a_new_result_is_bare(
    item: Item,
    provider: Seq<char>,
    identifier: Seq<char>,
    text: Seq<char>,
)
    requires
        item.is_plain(provider, identifier, text),
    ensures
        item.provider@ == provider,
        item.identifier@ == identifier,
        item.text@ == text,
        item.score == 0,
        item.actions@.len() == 0,
        item.subtext@.len() == 0,
{
}

} // verus!
