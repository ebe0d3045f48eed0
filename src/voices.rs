//! Which workers still need the voice asset, and the record of uploads made
//! in this session. The caller probes the workers and uploads.
use vstd::prelude::*;
use crate::chars::str_eq;
use crate::pool::{Worker, WorkerPool, worker_ready};

verus! {

/// Whether the upload record holds `(name, hash)`.
pub open spec fn recorded(m: Seq<(String, String)>, name: Seq<char>, hash: Seq<char>) -> bool {
    exists|i: int| 0 <= i < m.len() && (#[trigger] m[i]).0@ == name && m[i].1@ == hash
}

fn is_recorded(m: &Vec<(String, String)>, name: &str, hash: &str) -> (r: bool)
    ensures
        r == recorded(m@, name@, hash@),
{
    let mut i: usize = 0;
    while i < m.len()
        invariant
            i <= m@.len(),
            forall|k: int| 0 <= k < i ==> !((#[trigger] m@[k]).0@ == name@ && m@[k].1@ == hash@),
        decreases m@.len() - i,
    {
        if str_eq(m[i].0.as_str(), name) && str_eq(m[i].1.as_str(), hash) {
            return true;
        }
        i = i + 1;
    }
    false
}

/// Some ready worker named `name` is not recorded as holding `hash`.
pub open spec fn wants_voice(
    ws: Seq<Worker>,
    m: Seq<(String, String)>,
    hash: Seq<char>,
    name: Seq<char>,
) -> bool {
    exists|i: int|
        0 <= i < ws.len() && worker_ready(#[trigger] ws[i]) && !recorded(m, ws[i].config.name@, hash)
            && ws[i].config.name@ == name
}

/// Position of an entry of `names` equal to `name`.
fn position_in(names: &Vec<String>, name: &str) -> (r: Option<usize>)
    ensures
        r matches Some(k) ==> k < names@.len() && names@[k as int]@ == name@,
        r is None ==> forall|k: int| 0 <= k < names@.len() ==> (#[trigger] names@[k])@ != name@,
{
    let mut i: usize = 0;
    while i < names.len()
        invariant
            i <= names@.len(),
            forall|k: int| 0 <= k < i ==> (#[trigger] names@[k])@ != name@,
        decreases names@.len() - i,
    {
        if str_eq(names[i].as_str(), name) {
            return Some(i);
        }
        i = i + 1;
    }
    None
}

impl WorkerPool {
    /// The names of the ready workers that are not yet known to hold the
    /// voice asset `hash`, in pool order, each once.
    pub fn voice_upload_targets(&self, hash: &str) -> (r: Vec<String>)
        ensures
            r@.len() <= self.workers@.len(),
            forall|a: int, b: int|
                0 <= a < b < r@.len() ==> (#[trigger] r@[a])@ != (#[trigger] r@[b])@,
            forall|k: int|
                0 <= k < r@.len() ==> wants_voice(self.workers@, self.uploaded_voices@, hash@, (#[trigger] r@[k])@),
            forall|i: int|
                0 <= i < self.workers@.len() && worker_ready(#[trigger] self.workers@[i])
                    && !recorded(self.uploaded_voices@, self.workers@[i].config.name@, hash@)
                    ==> exists|k: int| 0 <= k < r@.len() && r@[k]@ == self.workers@[i].config.name@,
    {
        let mut r: Vec<String> = Vec::new();
        let mut i: usize = 0;
        while i < self.workers.len()
            invariant
                i <= self.workers@.len(),
                r@.len() <= i,
                forall|a: int, b: int|
                    0 <= a < b < r@.len() ==> (#[trigger] r@[a])@ != (#[trigger] r@[b])@,
                forall|k: int|
                    0 <= k < r@.len() ==> wants_voice(
                        self.workers@,
                        self.uploaded_voices@,
                        hash@,
                        (#[trigger] r@[k])@,
                    ),
                forall|j: int|
                    0 <= j < i && worker_ready(#[trigger] self.workers@[j]) && !recorded(
                        self.uploaded_voices@,
                        self.workers@[j].config.name@,
                        hash@,
                    ) ==> exists|k: int| 0 <= k < r@.len() && r@[k]@ == self.workers@[j].config.name@,
            decreases self.workers@.len() - i,
        {
            let w = &self.workers[i];
            if w.is_ready() && !is_recorded(&self.uploaded_voices, w.name(), hash) {
                match position_in(&r, w.name()) {
                    Some(k) => {
                        assert(r@[k as int]@ == self.workers@[i as int].config.name@);
                    },
                    None => {
                        let ghost prev = r@;
                        r.push(w.config.name.clone());
                        proof {
                            assert forall|a: int, b: int|
                                0 <= a < b < r@.len() implies (#[trigger] r@[a])@ != (
                                #[trigger] r@[b])@ by {
                                if b < prev.len() {
                                    assert(r@[a] == prev[a] && r@[b] == prev[b]);
                                } else {
                                    assert(r@[a] == prev[a]);
                                }
                            }
                            assert forall|k: int| 0 <= k < r@.len() implies wants_voice(
                                self.workers@,
                                self.uploaded_voices@,
                                hash@,
                                (#[trigger] r@[k])@,
                            ) by {
                                if k < prev.len() {
                                    assert(r@[k] == prev[k]);
                                } else {
                                    assert(r@[k]@ == self.workers@[i as int].config.name@);
                                }
                            }
                            assert forall|j: int|
                                0 <= j < i + 1 && worker_ready(#[trigger] self.workers@[j])
                                    && !recorded(
                                    self.uploaded_voices@,
                                    self.workers@[j].config.name@,
                                    hash@,
                                ) implies exists|k: int|
                                0 <= k < r@.len() && r@[k]@ == self.workers@[j].config.name@ by {
                                if j < i {
                                    let k = choose|k: int|
                                        0 <= k < prev.len() && prev[k]@
                                            == self.workers@[j].config.name@;
                                    assert(r@[k] == prev[k]);
                                } else {
                                    assert(r@[prev.len() as int]@
                                        == self.workers@[i as int].config.name@);
                                }
                            }
                        }
                    },
                }
            }
            i = i + 1;
        }
        r
    }

    /// Records that worker `name` holds the voice asset `hash`.
    pub fn record_voice_uploaded(&mut self, name: &str, hash: &str)
        ensures
            recorded(final(self).uploaded_voices@, name@, hash@),
            forall|n: Seq<char>, h: Seq<char>|
                recorded(old(self).uploaded_voices@, n, h) ==> #[trigger] recorded(
                    final(self).uploaded_voices@,
                    n,
                    h,
                ),
            forall|n: Seq<char>, h: Seq<char>|
                #[trigger] recorded(final(self).uploaded_voices@, n, h) ==> recorded(
                    old(self).uploaded_voices@,
                    n,
                    h,
                ) || (n == name@ && h == hash@),
            final(self).workers == old(self).workers,
            final(self).defaults == old(self).defaults,
    {
        if is_recorded(&self.uploaded_voices, name, hash) {
            return;
        }
        let ghost prev = self.uploaded_voices@;
        self.uploaded_voices.push((name.to_owned(), hash.to_owned()));
        proof {
            let m = self.uploaded_voices@;
            assert(m[prev.len() as int].0@ == name@ && m[prev.len() as int].1@ == hash@);
            assert forall|n: Seq<char>, h: Seq<char>| recorded(prev, n, h) implies #[trigger] recorded(
                m,
                n,
                h,
            ) by {
                let i = choose|i: int| 0 <= i < prev.len() && (#[trigger] prev[i]).0@ == n && prev[i].1@ == h;
                assert(m[i] == prev[i]);
            }
            assert forall|n: Seq<char>, h: Seq<char>| #[trigger] recorded(m, n, h) implies recorded(
                prev,
                n,
                h,
            ) || (n == name@ && h == hash@) by {
                let i = choose|i: int| 0 <= i < m.len() && (#[trigger] m[i]).0@ == n && m[i].1@ == h;
                if i < prev.len() {
                    assert(m[i] == prev[i]);
                }
            }
        }
    }
}

} // verus!
