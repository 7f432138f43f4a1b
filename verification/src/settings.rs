//! Keybinding settings as the host-independent core sees them: named
//! bindings with default virtual keys, and the source the updater
//! checks.

use vstd::prelude::*;
use crate::text;

verus! {

/// Persisted keybinding overrides: binding name to virtual-key code.
pub struct ArcSettings {
    pub bind_vks: Vec<(String, u16)>,
}

/// One named keybinding with its default virtual key; zero means
/// unbound.
#[derive(Clone, PartialEq, Eq)]
pub struct ArcVk {
    pub id: String,
    pub default_vk: u16,
}

impl ArcVk {
    /// A binding with no default key.
    pub fn empty(id: &str) -> (r: ArcVk)
        ensures
            r.id@ == id@,
            r.default_vk == 0,
    {
        ArcVk { id: id.to_owned(), default_vk: 0 }
    }

    /// A binding with a default key.
    pub fn new(id: &str, default_vk: u16) -> (r: ArcVk)
        ensures
            r.id@ == id@,
            r.default_vk == default_vk,
    {
        ArcVk { id: id.to_owned(), default_vk }
    }

    /// The default key, when one is set.
    pub fn vkeycode_default(&self) -> (r: Option<u16>)
        ensures
            r == (if self.default_vk == 0 {
                Option::<u16>::None
            } else {
                Option::<u16>::Some(self.default_vk)
            }),
    {
        if self.default_vk == 0 {
            None
        } else {
            Some(self.default_vk)
        }
    }

    /// The binding's display name.  Localisation is the host shell's
    /// concern, outside this core: the identifier itself is returned.
    pub fn get_name(&self) -> (r: String)
        ensures
            r@ == self.id@,
    {
        self.id.clone()
    }

    /// The window this binding toggles: only the four window-toggle
    /// binding constants themselves (identifier and default key both
    /// matching) name a window.
    pub fn window_name(&self) -> (r: Option<String>)
        ensures
            match r {
                Some(n) => n@ == window_name_of(self.id@, self.default_vk)->Some_0,
                None => true,
            },
            r is Some <==> window_name_of(self.id@, self.default_vk) is Some,
    {
        if text::str_is(self.id.as_str(), "primary-window-toggle") && self.default_vk == 0x4d {
            proof {
                lemma_window_names();
            }
            Some(String::from_str("primary"))
        } else if text::str_is(self.id.as_str(), "timer-window-toggle") && self.default_vk
            == 0x4b {
            proof {
                lemma_window_names();
            }
            Some(String::from_str("timers"))
        } else if text::str_is(self.id.as_str(), "marker-window-toggle") && self.default_vk
            == 0x4c {
            proof {
                lemma_window_names();
            }
            Some(String::from_str("markers"))
        } else if text::str_is(self.id.as_str(), "pathing-window-toggle") && self.default_vk
            == 0x4e {
            proof {
                lemma_window_names();
            }
            Some(String::from_str("pathing"))
        } else {
            proof {
                lemma_window_names();
            }
            None
        }
    }
}

impl ArcSettings {
    /// No overrides.
    pub fn empty_settings() -> (r: ArcSettings)
        ensures
            r.bind_vks@.len() == 0,
    {
        ArcSettings { bind_vks: Vec::new() }
    }

    /// The key a binding resolves to: the first stored override under
    /// its name, else its default, else nothing.
    pub fn get_vk(&self, binding: &ArcVk) -> (r: Option<u16>)
        ensures
            r == vk_of(self.bind_vks@, binding.id@, binding.default_vk),
    {
        let n = self.bind_vks.len();
        assert(self.bind_vks@.skip(0) =~= self.bind_vks@);
        for i in 0..n
            invariant
                n == self.bind_vks@.len(),
                vk_of(self.bind_vks@, binding.id@, binding.default_vk) == vk_of(
                    self.bind_vks@.skip(i as int),
                    binding.id@,
                    binding.default_vk,
                ),
        {
            proof {
                lemma_vk_of_skip(self.bind_vks@, binding.id@, binding.default_vk, i as int);
            }
            if text::str_is(self.bind_vks[i].0.as_str(), binding.id.as_str()) {
                return Some(self.bind_vks[i].1);
            }
        }
        binding.vkeycode_default()
    }

    /// Whether a pressed key matches the binding's resolved key.
    pub fn binding_matches(&self, binding: &ArcVk, vkeycode: u16) -> (r: bool)
        ensures
            r == (match vk_of(self.bind_vks@, binding.id@, binding.default_vk) {
                Some(v) => v == vkeycode,
                None => false,
            }),
    {
        match self.get_vk(binding) {
            Some(setting) => vkeycode == setting,
            None => false,
        }
    }
}

/// The key a binding resolves to against an override list: the first
/// override under its name wins, else the default, zero meaning
/// unbound.
pub open spec fn vk_of(binds: Seq<(String, u16)>, id: Seq<char>, default_vk: u16) -> Option<u16>
    decreases binds.len(),
{
    if binds.len() == 0 {
        if default_vk == 0 {
            None
        } else {
            Some(default_vk)
        }
    } else if binds.first().0@ == id {
        Some(binds.first().1)
    } else {
        vk_of(binds.drop_first(), id, default_vk)
    }
}

proof fn lemma_vk_of_skip(binds: Seq<(String, u16)>, id: Seq<char>, default_vk: u16, i: int)
    requires
        0 <= i < binds.len(),
    ensures
        vk_of(binds.skip(i), id, default_vk) == (if binds[i].0@ == id {
            Some(binds[i].1)
        } else {
            vk_of(binds.skip(i + 1), id, default_vk)
        }),
{
    assert(binds.skip(i).first() == binds[i]);
    assert(binds.skip(i).drop_first() =~= binds.skip(i + 1));
}

/// The window a binding constant toggles: the whole constant must
/// match, identifier and default key both.
pub open spec fn window_name_of(id: Seq<char>, default_vk: u16) -> Option<Seq<char>> {
    if id == "primary-window-toggle"@ && default_vk == 0x4d {
        Some("primary"@)
    } else if id == "timer-window-toggle"@ && default_vk == 0x4b {
        Some("timers"@)
    } else if id == "marker-window-toggle"@ && default_vk == 0x4c {
        Some("markers"@)
    } else if id == "pathing-window-toggle"@ && default_vk == 0x4e {
        Some("pathing"@)
    } else {
        None
    }
}

/// The four binding identifiers are pairwise distinct.
proof fn lemma_window_names()
    ensures
        "primary-window-toggle"@.len() == 21,
        "timer-window-toggle"@.len() == 19,
        "marker-window-toggle"@.len() == 20,
        "pathing-window-toggle"@.len() == 21,
        "primary-window-toggle"@ != "pathing-window-toggle"@,
{
    reveal_strlit("primary-window-toggle");
    reveal_strlit("timer-window-toggle");
    reveal_strlit("marker-window-toggle");
    reveal_strlit("pathing-window-toggle");
    assert("primary-window-toggle"@[0] == 'p' && "pathing-window-toggle"@[1] == 'a');
    assert("primary-window-toggle"@[1] == 'r');
}

/// Where the overlay's updater looks for releases.
pub struct GitHubSource {
    pub owner: String,
    pub repository: String,
    pub description: Option<String>,
}

/// The repository this overlay updates from.
pub fn gh_repo_src() -> (r: GitHubSource)
    ensures
        r.owner@ == "TaimiHUD"@,
        r.repository@ == "TaimiHUD"@,
        r.description is None,
{
    GitHubSource {
        owner: String::from_str("TaimiHUD"),
        repository: String::from_str("TaimiHUD"),
        description: None,
    }
}

} // verus!
