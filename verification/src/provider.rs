//! The provider around the pipeline: its display identity, its colored
//! label, and the boolean inclusion policy kept as host configuration.

use vstd::prelude::*;
use vstd::string::StringExecFns;
use crate::lex::str_eq;
use crate::suggest::{titles, is_fetch_result};
use crate::parse::{body_titles, suggestions_from_body};

verus! {

/// One boolean configuration entry: a display name and its value.
pub struct ConfigEntry {
    pub name: String,
    pub value: bool,
}

/// The value configured under a key: the first entry with that name wins,
/// and a missing entry falls back to `true`.
pub open spec fn policy_of(entries: Seq<ConfigEntry>, key: Seq<char>) -> bool
    decreases entries.len(),
{
    if entries.len() == 0 {
        true
    } else if entries[0].name@ == key {
        entries[0].value
    } else {
        policy_of(entries.drop_first(), key)
    }
}

/// The configuration schema the provider declares, with its defaults: one
/// boolean option, on by default.
pub fn default_config() -> (r: Vec<ConfigEntry>)
    ensures
        r@.len() == 1,
        r@[0].name@ == "Always return query even if no results found"@,
        r@[0].value == true,
{
    let mut entries: Vec<ConfigEntry> = Vec::new();
    entries.push(
        ConfigEntry {
            name: String::from_str("Always return query even if no results found"),
            value: true,
        },
    );
    entries
}

/// One character of the colored display label, with its RGBA color.
#[derive(Clone, Copy, PartialEq, Eq, Structural, Debug)]
pub struct ColoredChar {
    pub ch: char,
    pub color: u32,
}

/// The colored label: "DuckDuckGo", the first "Duck" orange, the second
/// yellow, "Go" green.
pub open spec fn label() -> Seq<ColoredChar> {
    seq![
        (ColoredChar { ch: 'D', color: 0xDE5833FF }),
        (ColoredChar { ch: 'u', color: 0xDE5833FF }),
        (ColoredChar { ch: 'c', color: 0xDE5833FF }),
        (ColoredChar { ch: 'k', color: 0xDE5833FF }),
        (ColoredChar { ch: 'D', color: 0xFFCC33FF }),
        (ColoredChar { ch: 'u', color: 0xFFCC33FF }),
        (ColoredChar { ch: 'c', color: 0xFFCC33FF }),
        (ColoredChar { ch: 'k', color: 0xFFCC33FF }),
        (ColoredChar { ch: 'G', color: 0x4CBA3CFF }),
        (ColoredChar { ch: 'o', color: 0x4CBA3CFF }),
    ]
}

/// The provider: a pass-through host token and the current configuration.
pub struct SuggestionProvider {
    pub id: String,
    pub config: Vec<ConfigEntry>,
}

impl SuggestionProvider {
    /// A fresh provider for a host token, with the default configuration.
    pub fn new(id: String) -> (r: Self)
        ensures
            r.id@ == id@,
            r.config@.len() == 1,
            r.config@[0].name@ == "Always return query even if no results found"@,
            r.config@[0].value == true,
    {
        SuggestionProvider { id, config: default_config() }
    }

    /// The provider's display name.
    pub fn name(&self) -> (r: &'static str)
        ensures
            r@ == "DuckDuckGo-Search"@,
    {
        "DuckDuckGo-Search"
    }

    /// The colored display label.
    pub fn colored_name(&self) -> (r: Vec<ColoredChar>)
        ensures
            r@ == label(),
    {
        let mut chars: Vec<ColoredChar> = Vec::new();
        chars.push(ColoredChar { ch: 'D', color: 0xDE5833FF });
        chars.push(ColoredChar { ch: 'u', color: 0xDE5833FF });
        chars.push(ColoredChar { ch: 'c', color: 0xDE5833FF });
        chars.push(ColoredChar { ch: 'k', color: 0xDE5833FF });
        chars.push(ColoredChar { ch: 'D', color: 0xFFCC33FF });
        chars.push(ColoredChar { ch: 'u', color: 0xFFCC33FF });
        chars.push(ColoredChar { ch: 'c', color: 0xFFCC33FF });
        chars.push(ColoredChar { ch: 'k', color: 0xFFCC33FF });
        chars.push(ColoredChar { ch: 'G', color: 0x4CBA3CFF });
        chars.push(ColoredChar { ch: 'o', color: 0x4CBA3CFF });
        proof {
            assert(chars@ =~= label());
        }
        chars
    }

    /// The host token, handed back unchanged.
    pub fn plugin_id(&self) -> (r: String)
        ensures
            r@ == self.id@,
    {
        self.id.clone()
    }

    /// Replace the configuration wholesale with what the host delivered.
    pub fn lazy_load_config(&mut self, config: Vec<ConfigEntry>)
        ensures
            final(self).id@ == old(self).id@,
            final(self).config@ == config@,
    {
        self.config = config;
    }

    /// The configured inclusion policy, `true` where nothing was set.
    pub fn always_include_query(&self) -> (r: bool)
        ensures
            r == policy_of(self.config@, "Always return query even if no results found"@),
    {
        let mut i: usize = 0;
        proof {
            assert(self.config@.skip(0) =~= self.config@);
        }
        loop
            invariant
                i <= self.config@.len(),
                policy_of(self.config@, "Always return query even if no results found"@)
                    == policy_of(
                    self.config@.skip(i as int),
                    "Always return query even if no results found"@,
                ),
            decreases self.config@.len() - i,
        {
            if i >= self.config.len() {
                return true;
            }
            if str_eq(
                self.config[i].name.as_str(),
                "Always return query even if no results found",
            ) {
                return self.config[i].value;
            }
            proof {
                assert(self.config@.skip(i as int).drop_first() =~= self.config@.skip(
                    i as int + 1,
                ));
            }
            i = i + 1;
        }
    }

    /// The fetch pipeline under this provider's current policy, from the
    /// raw transport outcome.
    pub fn search(&self, query: &str, body: Option<&str>) -> (r: Vec<String>)
        ensures
            is_fetch_result(
                query@,
                body_titles(body),
                policy_of(self.config@, "Always return query even if no results found"@),
                titles(r@),
            ),
    {
        let always_include_query = self.always_include_query();
        suggestions_from_body(query, body, always_include_query)
    }
}

} // verus!
