//! Hot-reloaded configuration values. Files and change notification are
//! the caller's business; these types carry the values and the lookups.

use vstd::prelude::*;

verus! {

/// Launcher and game version pins served to clients.
pub struct State {
    pub launcher_url: String,
    pub launcher_version: String,
    pub minecraft_version: String,
}

impl State {
    /// The values used until a configuration file is read.
    pub fn fallback() -> (r: State)
        ensures
            r.launcher_url@ == "launcher_url"@,
            r.launcher_version@ == "0.0"@,
            r.minecraft_version@ == "1.20.1"@,
    {
        State {
            launcher_url: "launcher_url".to_owned(),
            launcher_version: "0.0".to_owned(),
            minecraft_version: "1.20.1".to_owned(),
        }
    }
}

/// Path redirections: an ordered list of source-to-target mappings; the
/// first mapping for a source wins.
pub struct Redirects {
    pub mappings: Vec<(String, String)>,
}

/// The target the first matching mapping names, if any.
pub open spec fn spec_redirect(maps: Seq<(Seq<char>, Seq<char>)>, key: Seq<char>) -> Option<
    Seq<char>,
>
    decreases maps.len(),
{
    if maps.len() == 0 {
        None
    } else if maps[0].0 == key {
        Some(maps[0].1)
    } else {
        spec_redirect(maps.skip(1), key)
    }
}

impl Redirects {
    pub fn new() -> (r: Redirects)
        ensures
            r.mappings@.len() == 0,
    {
        Redirects { mappings: Vec::new() }
    }

    /// Adds a mapping at the end.
    pub fn add(&mut self, source: String, target: String)
        ensures
            final(self).mappings@ == old(self).mappings@.push((source, target)),
    {
        self.mappings.push((source, target));
    }

    /// Looks a source path up.
    pub fn resolve(&self, key: &str) -> (r: Option<&String>)
        ensures
            match r {
                Some(t) => spec_redirect(
                    self.mappings@.map_values(|m: (String, String)| (m.0@, m.1@)),
                    key@,
                ) == Some(t@),
                None => spec_redirect(
                    self.mappings@.map_values(|m: (String, String)| (m.0@, m.1@)),
                    key@,
                ) is None,
            },
    {
        let ghost views = self.mappings@.map_values(|m: (String, String)| (m.0@, m.1@));
        let mut i: usize = 0;
        proof {
            assert(views.skip(0) =~= views);
        }
        while i < self.mappings.len()
            invariant
                0 <= i <= self.mappings@.len(),
                views == self.mappings@.map_values(|m: (String, String)| (m.0@, m.1@)),
                spec_redirect(views, key@) == spec_redirect(views.skip(i as int), key@),
                forall|j: int| 0 <= j < i ==> (#[trigger] views[j]).0 != key@,
            decreases self.mappings@.len() - i,
        {
            if crate::routing::str_eq(self.mappings[i].0.as_str(), key) {
                proof {
                    assert(views.skip(i as int)[0] == views[i as int]);
                }
                return Some(&self.mappings[i].1);
            }
            i += 1;
            proof {
                assert(views.skip(i - 1).skip(1) =~= views.skip(i as int));
                assert(views.skip(i - 1)[0] == views[i - 1]);
            }
        }
        proof {
            assert(views.skip(views.len() as int) =~= Seq::<(Seq<char>, Seq<char>)>::empty());
        }
        None
    }
}

} // verus!
