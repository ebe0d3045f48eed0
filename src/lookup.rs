//! Looking workers up by name: a comma-separated selection from the
//! configuration, and mutable access to a worker of the pool.
use vstd::prelude::*;
use crate::chars::{chars_of, string_of};
use crate::cleaner::{trim_end, trim_pass, trim_start};
use crate::config::{WorkerConfig, WorkersConfig, find_worker, first_named, has_name};
use crate::epub_text::split_on;
use crate::pool::{Worker, WorkerPool};

verus! {

/// Position of the first worker named `name`, or -1.
pub open spec fn position_named(ws: Seq<WorkerConfig>, name: Seq<char>) -> int
    decreases ws.len(),
{
    if ws.len() == 0 {
        -1
    } else if position_named(ws.drop_last(), name) >= 0 {
        position_named(ws.drop_last(), name)
    } else if ws.last().name@ == name {
        ws.len() - 1
    } else {
        -1
    }
}

pub(crate) proof fn lemma_position_named(ws: Seq<WorkerConfig>, name: Seq<char>)
    ensures
        position_named(ws, name) >= 0 ==> first_named(ws, name, position_named(ws, name)),
        position_named(ws, name) < 0 ==> !has_name(ws, name),
    decreases ws.len(),
{
    if ws.len() > 0 {
        let t = ws.drop_last();
        lemma_position_named(t, name);
        let p = position_named(ws, name);
        if p >= 0 {
            assert forall|j: int| 0 <= j < p implies (#[trigger] ws[j]).name@ != name by {
                assert(ws[j] == t[j]);
            }
            if p < ws.len() - 1 {
                assert(ws[p] == t[p]);
            }
        } else {
            assert forall|j: int| 0 <= j < ws.len() implies (#[trigger] ws[j]).name@ != name by {
                if j < ws.len() - 1 {
                    assert(ws[j] == t[j]);
                }
            }
        }
    }
}

/// The configured workers named in `parts`, in that order, each the first
/// entry of its name; names without an entry are skipped.
pub open spec fn workers_named(ws: Seq<WorkerConfig>, parts: Seq<Seq<char>>) -> Seq<WorkerConfig>
    decreases parts.len(),
{
    if parts.len() == 0 {
        Seq::empty()
    } else {
        let r = workers_named(ws, parts.drop_last());
        let p = position_named(ws, parts.last());
        if p >= 0 {
            r.push(ws[p])
        } else {
            r
        }
    }
}

/// The names of a comma-separated list, each trimmed of whitespace.
pub open spec fn name_list(s: Seq<char>) -> Seq<Seq<char>> {
    split_on(s, ',').map_values(|p: Seq<char>| trim_end(trim_start(p)))
}

/// The workers behind a list of references.
pub open spec fn config_derefs(s: Seq<&WorkerConfig>) -> Seq<WorkerConfig> {
    s.map_values(|w: &WorkerConfig| *w)
}

impl WorkersConfig {
    /// The workers named in a comma-separated list, in the list's order;
    /// names are trimmed, and names without an entry are skipped.
    pub fn get_workers_by_names(&self, names: &str) -> (r: Vec<&WorkerConfig>)
        ensures
            config_derefs(r@) == workers_named(self.workers@, name_list(names@)),
    {
        let cs = chars_of(names);
        let mut r: Vec<&WorkerConfig> = Vec::new();
        let mut piece: Vec<char> = Vec::new();
        let mut i: usize = 0;
        let ghost mut done: Seq<Seq<char>> = Seq::empty();
        assert(cs@.take(0) =~= Seq::<char>::empty());
        assert(split_on(Seq::<char>::empty(), ',') =~= seq![piece@]);
        while i < cs.len()
            invariant
                i <= cs@.len(),
                split_on(cs@.take(i as int), ',') == done.push(piece@),
                config_derefs(r@) == workers_named(
                    self.workers@,
                    done.map_values(|p: Seq<char>| trim_end(trim_start(p))),
                ),
            decreases cs@.len() - i,
        {
            let c = cs[i];
            assert(cs@.take(i + 1).drop_last() =~= cs@.take(i as int));
            assert(cs@.take(i + 1).last() == c);
            if c == ',' {
                let t = trim_pass(&piece);
                let name = string_of(&t);
                let ghost trimmed = done.map_values(|p: Seq<char>| trim_end(trim_start(p)));
                let ghost before = r@;
                proof {
                    lemma_position_named(self.workers@, t@);
                }
                match find_worker(&self.workers, name.as_str()) {
                    Some(k) => {
                        r.push(&self.workers[k]);
                        assert(config_derefs(r@) =~= config_derefs(before).push(self.workers@[k as int]));
                    },
                    None => {},
                }
                proof {
                    let nd = done.push(piece@);
                    assert(nd.map_values(|p: Seq<char>| trim_end(trim_start(p))) =~= trimmed.push(t@));
                    assert(trimmed.push(t@).drop_last() =~= trimmed);
                    done = nd;
                }
                piece = Vec::new();
                assert(split_on(cs@.take(i + 1), ',') =~= done.push(piece@));
            } else {
                let ghost old_piece = piece@;
                piece.push(c);
                assert(done.push(old_piece).update(done.len() as int, old_piece.push(c)) =~= done.push(
                    piece@,
                ));
            }
            i = i + 1;
        }
        assert(cs@.take(i as int) =~= cs@);
        let t = trim_pass(&piece);
        let name = string_of(&t);
        let ghost trimmed = done.map_values(|p: Seq<char>| trim_end(trim_start(p)));
        let ghost before = r@;
        proof {
            lemma_position_named(self.workers@, t@);
        }
        match find_worker(&self.workers, name.as_str()) {
            Some(k) => {
                r.push(&self.workers[k]);
                assert(config_derefs(r@) =~= config_derefs(before).push(self.workers@[k as int]));
            },
            None => {},
        }
        proof {
            let nd = done.push(piece@);
            assert(nd.map_values(|p: Seq<char>| trim_end(trim_start(p))) =~= trimmed.push(t@));
            assert(trimmed.push(t@).drop_last() =~= trimmed);
        }
        r
    }
}

impl WorkerPool {
    /// The first worker named `name`, for changing it.
    pub fn get_worker_mut(&mut self, name: &str) -> (r: Option<&mut Worker>)
        ensures
            r is None <==> forall|j: int|
                0 <= j < old(self).workers@.len() ==> (#[trigger] old(self).workers@[j]).config.name@
                    != name@,
            r matches Some(w) ==> exists|i: int|
                0 <= i < old(self).workers@.len() && *w == old(self).workers@[i]
                    && old(self).workers@[i].config.name@ == name@ && (forall|j: int|
                    0 <= j < i ==> (#[trigger] old(self).workers@[j]).config.name@ != name@)
                    && final(self).workers@
                    == old(self).workers@.update(i, *final(w)) && final(self).defaults == old(
                    self,
                ).defaults && final(self).uploaded_voices == old(self).uploaded_voices,
            r is None ==> *final(self) == *old(self),
    {
        match self.position_of(name) {
            Some(i) => {
                Some(&mut self.workers[i])
            },
            None => None,
        }
    }
}

} // verus!
