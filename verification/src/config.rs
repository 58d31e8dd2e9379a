//! User settings and the ignore filter.
use vstd::prelude::*;

use crate::text::{chars_of, contains, contains_chars, lowercase, to_lowercase};

verus! {

/// User settings, read from `config.toml`.
#[derive(Debug)]
pub struct Config {
    /// Pixels below the monitor edge where hidden windows are put.
    pub hide_offset: i32,
    pub debug: bool,
    /// Class or title substrings of windows that are never managed.
    pub ignore: Vec<String>,
    /// Only switcher or keyboard focus changes hide windows, not mouse hover.
    pub ignore_hover: bool,
}

/// The `ignore` patterns as character sequences.
pub open spec fn patterns(c: &Config) -> Seq<Seq<char>> {
    c.ignore@.map_values(|s: String| s@)
}

/// Pattern `p` matches a window when, case folded, it occurs in the window's
/// class or in its title.
pub open spec fn pattern_matches(p: Seq<char>, class: Seq<char>, title: Seq<char>) -> bool {
    contains(lowercase(class), lowercase(p)) || contains(lowercase(title), lowercase(p))
}

/// Some pattern of the list matches the window.
pub open spec fn ignored_by(ps: Seq<Seq<char>>, class: Seq<char>, title: Seq<char>) -> bool {
    exists|i: int| 0 <= i < ps.len() && #[trigger] pattern_matches(ps[i], class, title)
}

/// Some already lowercased pattern occurs in the lowercased class or title.
pub open spec fn lowered_match(class_l: Seq<char>, title_l: Seq<char>, pats_l: Seq<Seq<char>>) -> bool {
    exists|i: int|
        0 <= i < pats_l.len() && (contains(class_l, #[trigger] pats_l[i]) || contains(title_l, pats_l[i]))
}

/// Whether some pattern of `patterns_lower` occurs in `class_lower` or in
/// `title_lower`; all three are taken as already case folded.
pub fn matches_lowered(class_lower: &str, title_lower: &str, patterns_lower: &Vec<String>) -> (b: bool)
    ensures
        b == lowered_match(class_lower@, title_lower@, patterns_lower@.map_values(|s: String| s@)),
{
    let ghost ps = patterns_lower@.map_values(|s: String| s@);
    let class_v = chars_of(class_lower);
    let title_v = chars_of(title_lower);
    let mut i: usize = 0;
    while i < patterns_lower.len()
        invariant
            i <= patterns_lower.len(),
            ps == patterns_lower@.map_values(|s: String| s@),
            class_v@ == class_lower@,
            title_v@ == title_lower@,
            forall|j: int|
                0 <= j < i ==> !(contains(class_lower@, #[trigger] ps[j]) || contains(title_lower@, ps[j])),
        decreases patterns_lower.len() - i,
    {
        let p = chars_of(patterns_lower[i].as_str());
        assert(ps[i as int] == p@);
        if contains_chars(&class_v, &p) || contains_chars(&title_v, &p) {
            return true;
        }
        i = i + 1;
    }
    false
}

/// The value that a config file without `ignore_hover` gets.
pub fn default_ignore_hover() -> (b: bool)
    ensures
        b,
{
    true
}

impl Default for Config {
    fn default() -> (c: Self)
        ensures
            c.hide_offset == 300,
            !c.debug,
            c.ignore@.len() == 0,
            c.ignore_hover,
    {
        Config { hide_offset: 300, debug: false, ignore: Vec::new(), ignore_hover: default_ignore_hover() }
    }
}

impl Config {
    /// Whether a window with this class and title is excluded from management:
    /// some `ignore` entry occurs, ignoring case, in the class or the title.
    pub fn should_ignore(&self, class: &str, title: &str) -> (b: bool)
        ensures
            b == ignored_by(patterns(self), class@, title@),
    {
        let class_lower = to_lowercase(class);
        let title_lower = to_lowercase(title);
        let ghost ps = patterns(self);
        let mut lowered: Vec<String> = Vec::new();
        let mut i: usize = 0;
        while i < self.ignore.len()
            invariant
                i <= self.ignore.len(),
                ps == patterns(self),
                lowered@.len() == i,
                forall|j: int| 0 <= j < i ==> (#[trigger] lowered@[j])@ == lowercase(ps[j]),
            decreases self.ignore.len() - i,
        {
            let l = to_lowercase(self.ignore[i].as_str());
            assert(ps[i as int] == self.ignore@[i as int]@);
            lowered.push(l);
            i = i + 1;
        }
        let b = matches_lowered(class_lower.as_str(), title_lower.as_str(), &lowered);
        proof {
            let pl = lowered@.map_values(|s: String| s@);
            assert forall|j: int| 0 <= j < ps.len() implies #[trigger] pattern_matches(ps[j], class@, title@)
                == (contains(lowercase(class@), pl[j]) || contains(lowercase(title@), pl[j])) by {
                assert(pl[j] == lowered@[j]@);
            }
            if b {
                let j = choose|j: int|
                    0 <= j < pl.len() && (contains(lowercase(class@), #[trigger] pl[j]) || contains(lowercase(title@), pl[j]));
                assert(pattern_matches(ps[j], class@, title@));
            }
            if ignored_by(ps, class@, title@) {
                let j = choose|j: int| 0 <= j < ps.len() && #[trigger] pattern_matches(ps[j], class@, title@);
                assert(contains(lowercase(class@), pl[j]) || contains(lowercase(title@), pl[j]));
            }
        }
        b
    }
}

} // verus!
