//! The binding table: which command line each alias stands for.

use crate::text::strings_view;
use vstd::prelude::*;

verus! {

/// The table of bindings. An alias occurs in it once; the aliases keep the
/// order in which they were first inserted.
pub struct Config {
    aliases: Vec<String>,
    commands: Vec<String>,
}

impl View for Config {
    type V = Map<Seq<char>, Seq<char>>;

    /// The table as a map from alias to command line.
    open spec fn view(&self) -> Map<Seq<char>, Seq<char>> {
        Map::new(
            |alias: Seq<char>| self.spec_aliases().contains(alias),
            |alias: Seq<char>| self.spec_commands()[self.spec_aliases().index_of(alias)],
        )
    }
}

impl Config {
    /// The aliases, in the order of the table.
    pub closed spec fn spec_aliases(&self) -> Seq<Seq<char>> {
        strings_view(self.aliases@)
    }

    /// The command lines: the one at a position belongs to the alias at that
    /// position.
    pub closed spec fn spec_commands(&self) -> Seq<Seq<char>> {
        strings_view(self.commands@)
    }

    /// Every alias has its command line, and no alias occurs twice.
    pub open spec fn wf(&self) -> bool {
        &&& self.spec_aliases().len() == self.spec_commands().len()
        &&& self.spec_aliases().len() <= usize::MAX
        &&& self.spec_aliases().no_duplicates()
    }

    /// An empty table.
    pub fn new() -> (config: Config)
        ensures
            config.wf(),
            config.spec_aliases() == Seq::<Seq<char>>::empty(),
            config.spec_commands() == Seq::<Seq<char>>::empty(),
    {
        let config = Config { aliases: Vec::new(), commands: Vec::new() };
        assert(config.spec_aliases() =~= Seq::<Seq<char>>::empty());
        assert(config.spec_commands() =~= Seq::<Seq<char>>::empty());
        config
    }

    /// The aliases, in the order of the table.
    pub fn aliases(&self) -> (aliases: &Vec<String>)
        ensures
            strings_view(aliases@) == self.spec_aliases(),
    {
        &self.aliases
    }

    /// How many bindings the table holds.
    pub fn len(&self) -> (n: usize)
        ensures
            n == self.spec_aliases().len(),
    {
        self.aliases.len()
    }

    /// Where in the table the alias stands, if it is bound.
    fn position(&self, alias: &str) -> (found: Option<usize>)
        ensures
            match found {
                Some(i) => i < self.spec_aliases().len() && self.spec_aliases()[i as int] == alias@,
                None => !self.spec_aliases().contains(alias@),
            },
    {
        let needle: String = alias.to_owned();
        let mut i: usize = 0;
        while i < self.aliases.len()
            invariant
                i <= self.aliases.len(),
                needle@ == alias@,
                forall|k: int| 0 <= k < i ==> (#[trigger] self.aliases[k])@ != alias@,
            decreases self.aliases.len() - i,
        {
            if self.aliases[i] == needle {
                return Some(i);
            }
            i += 1;
        }
        None
    }

    /// Binds `alias` to `command`. An alias that is bound already keeps its
    /// place in the table and gets the new command line; a new alias goes to
    /// the end.
    pub fn insert(&mut self, alias: String, command: String)
        requires
            old(self).wf(),
        ensures
            final(self).wf(),
            final(self)@ == old(self)@.insert(alias@, command@),
            old(self).spec_aliases().contains(alias@) ==> {
                &&& final(self).spec_aliases() == old(self).spec_aliases()
                &&& final(self).spec_commands() == old(self).spec_commands().update(
                    old(self).spec_aliases().index_of(alias@),
                    command@,
                )
            },
            !old(self).spec_aliases().contains(alias@) ==> {
                &&& final(self).spec_aliases() == old(self).spec_aliases().push(alias@)
                &&& final(self).spec_commands() == old(self).spec_commands().push(command@)
            },
    {
        let ghost before = *self;
        match self.position(alias.as_str()) {
            Some(i) => {
                self.commands.set(i, command);
                proof {
                    assert(self.spec_aliases() == before.spec_aliases());
                    assert(before.spec_aliases().index_of(alias@) == i);
                    assert(self.spec_commands() =~= before.spec_commands().update(
                        i as int,
                        command@,
                    ));
                }
            },
            None => {
                self.aliases.push(alias);
                self.commands.push(command);
                proof {
                    assert(self.aliases@.len() == self.aliases.len());
                    assert(self.spec_aliases() =~= before.spec_aliases().push(alias@));
                    assert(self.spec_commands() =~= before.spec_commands().push(command@));
                }
            },
        }
        proof {
            let after = *self;
            assert forall|a: Seq<char>| after@.dom().contains(a) <==> before@.insert(
                alias@,
                command@,
            ).dom().contains(a) by {
                if before.spec_aliases().contains(a) {
                    let k = before.spec_aliases().index_of(a);
                    assert(after.spec_aliases()[k] == a);
                }
                if after.spec_aliases().contains(a) && a != alias@ {
                    let k = after.spec_aliases().index_of(a);
                    assert(before.spec_aliases()[k] == a);
                }
                if a == alias@ {
                    assert(after.spec_aliases().contains(a)) by {
                        if !before.spec_aliases().contains(alias@) {
                            assert(after.spec_aliases()[before.spec_aliases().len() as int] == a);
                        }
                    }
                }
            }
            assert forall|a: Seq<char>| after@.dom().contains(a) implies after@[a] == before@.insert(
                alias@,
                command@,
            )[a] by {
                let k = after.spec_aliases().index_of(a);
                if a != alias@ {
                    assert(before.spec_aliases()[k] == a);
                    assert(before.spec_aliases().index_of(a) == k);
                }
            }
            assert(after@ =~= before@.insert(alias@, command@));
        }
    }

    /// The command line bound to `alias`, if the table binds it.
    pub fn get_command(&self, alias: &str) -> (command: Option<&String>)
        requires
            self.wf(),
        ensures
            match command {
                Some(c) => self@.contains_key(alias@) && c@ == self@[alias@],
                None => !self@.contains_key(alias@),
            },
            self@.contains_key(alias@) <==> self.spec_aliases().contains(alias@),
    {
        match self.position(alias) {
            Some(i) => {
                assert(self.spec_aliases().index_of(alias@) == i);
                Some(&self.commands[i])
            },
            None => None,
        }
    }
}

} // verus!
