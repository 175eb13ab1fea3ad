//! The issues of one mod, as shown to the user.
use vstd::prelude::*;

verus! {

/// The issues of one mod.
#[derive(Debug)]
pub struct ModIssues {
    pub mod_id: String,
    /// The game version the mod does not support, e.g. "1.0".
    pub unsupported_game_version: Option<String>,
    pub missing_dependencies: Vec<String>,
    /// Mods whose load relations this mod breaks.
    pub load_order_violations: Vec<String>,
}

/// The pieces joined with `sep` between each two, as `[&str]::join`.
pub open spec fn join(pieces: Seq<Seq<char>>, sep: Seq<char>) -> Seq<char>
    decreases pieces.len(),
{
    if pieces.len() == 0 {
        Seq::empty()
    } else if pieces.len() == 1 {
        pieces[0]
    } else {
        join(pieces.drop_last(), sep) + sep + pieces.last()
    }
}

/// Joins the pieces with `sep` between each two.
pub fn join_strings(pieces: &[String], sep: &str) -> (r: String)
    ensures
        r@ == join(pieces.deep_view(), sep@),
{
    let ghost v = pieces.deep_view();
    let mut out = String::new();
    let mut i: usize = 0;
    while i < pieces.len()
        invariant
            i <= pieces.len(),
            v == pieces.deep_view(),
            out@ == join(v.take(i as int), sep@),
        decreases pieces.len() - i,
    {
        assert(v.take(i + 1).drop_last() =~= v.take(i as int));
        if i > 0 {
            out.append(sep);
        }
        out.append(pieces[i].as_str());
        proof {
            if i == 0 {
                assert(v.take(1)[0] == v[0]);
                assert(out@ =~= v[0]);
            } else {
                assert(v.take(i + 1).last() == v[i as int]);
            }
        }
        i = i + 1;
    }
    assert(v.take(pieces.len() as int) =~= v);
    out
}

/// The sections of the text of the issues: the unsupported version, the
/// missing dependencies, the load order violations, each when there is one.
pub open spec fn issue_sections(
    version: Option<Seq<char>>,
    missing: Seq<Seq<char>>,
    violations: Seq<Seq<char>>,
) -> Seq<Seq<char>> {
    let a = match version {
        Some(v) => seq!["Unsupported game version: "@ + v],
        None => Seq::empty(),
    };
    let b = if missing.len() > 0 {
        seq!["Missing dependencies:\n- "@ + join(missing, "\n- "@)]
    } else {
        Seq::empty()
    };
    let c = if violations.len() > 0 {
        seq!["Load order violations:\n- "@ + join(violations, "\n- "@)]
    } else {
        Seq::empty()
    };
    a + b + c
}

impl ModIssues {
    /// No issues yet for the mod `mod_id`.
    pub fn new(mod_id: String) -> (r: Self)
        ensures
            r.mod_id@ == mod_id@,
            r.unsupported_game_version is None,
            r.missing_dependencies@.len() == 0,
            r.load_order_violations@.len() == 0,
    {
        ModIssues {
            mod_id,
            unsupported_game_version: None,
            missing_dependencies: Vec::new(),
            load_order_violations: Vec::new(),
        }
    }

    /// Records that the mod does not support the game version `version`.
    pub fn add_unsupported_game_version(&mut self, version: String)
        ensures
            final(self).unsupported_game_version matches Some(v) && v@ == version@,
            final(self).mod_id == old(self).mod_id,
            final(self).missing_dependencies == old(self).missing_dependencies,
            final(self).load_order_violations == old(self).load_order_violations,
    {
        self.unsupported_game_version = Some(version);
    }

    /// Records a missing dependency.
    pub fn add_missing_dependency(&mut self, dependency: String)
        ensures
            final(self).missing_dependencies@ == old(self).missing_dependencies@.push(dependency),
            final(self).mod_id == old(self).mod_id,
            final(self).unsupported_game_version == old(self).unsupported_game_version,
            final(self).load_order_violations == old(self).load_order_violations,
    {
        self.missing_dependencies.push(dependency);
    }

    /// Records a load order violation.
    pub fn add_load_order_violation(&mut self, violation: String)
        ensures
            final(self).load_order_violations@ == old(self).load_order_violations@.push(violation),
            final(self).mod_id == old(self).mod_id,
            final(self).unsupported_game_version == old(self).unsupported_game_version,
            final(self).missing_dependencies == old(self).missing_dependencies,
    {
        self.load_order_violations.push(violation);
    }

    /// Whether there is any warning or error.
    pub fn has_issues(&self) -> (r: bool)
        ensures
            r == (self.load_order_violations@.len() > 0 || self.unsupported_game_version is Some
                || self.missing_dependencies@.len() > 0),
    {
        self.has_warnings() || self.has_errors()
    }

    /// Whether there is a load order violation.
    pub fn has_warnings(&self) -> (r: bool)
        ensures
            r == (self.load_order_violations@.len() > 0),
    {
        self.load_order_violations.len() > 0
    }

    /// Whether the game version is unsupported or a dependency is missing.
    pub fn has_errors(&self) -> (r: bool)
        ensures
            r == (self.unsupported_game_version is Some || self.missing_dependencies@.len() > 0),
    {
        self.unsupported_game_version.is_some() || self.missing_dependencies.len() > 0
    }

    /// The issues as text: their sections separated by a blank line.
    pub fn to_text(&self) -> (r: String)
        ensures
            r@ == join(
                issue_sections(
                    match self.unsupported_game_version {
                        Some(v) => Some(v@),
                        None => None,
                    },
                    self.missing_dependencies.deep_view(),
                    self.load_order_violations.deep_view(),
                ),
                "\n\n"@,
            ),
    {
        let mut sections: Vec<String> = Vec::new();
        match &self.unsupported_game_version {
            Some(version) => {
                let mut s = String::from_str("Unsupported game version: ");
                s.append(version.as_str());
                sections.push(s);
            },
            None => {},
        }
        let ghost a = sections.deep_view();
        if self.missing_dependencies.len() > 0 {
            let mut s = String::from_str("Missing dependencies:\n- ");
            let joined = join_strings(self.missing_dependencies.as_slice(), "\n- ");
            s.append(joined.as_str());
            sections.push(s);
        }
        let ghost b = sections.deep_view();
        if self.load_order_violations.len() > 0 {
            let mut s = String::from_str("Load order violations:\n- ");
            let joined = join_strings(self.load_order_violations.as_slice(), "\n- ");
            s.append(joined.as_str());
            sections.push(s);
        }
        assert(sections.deep_view() =~= issue_sections(
            match self.unsupported_game_version {
                Some(v) => Some(v@),
                None => None,
            },
            self.missing_dependencies.deep_view(),
            self.load_order_violations.deep_view(),
        ));
        join_strings(sections.as_slice(), "\n\n")
    }
}

} // verus!
