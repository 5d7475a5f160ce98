//! How far each source has been read and delivered.
//!
//! A checkpoint advances only once all up to it is confirmed.
use vstd::prelude::*;
use vstd::string::*;

use crate::strmap::{
    distinct_keys, lemma_position, lemma_pushed, listed_keys, map_of, position, StrMap,
};
use crate::text::{concat, strings};

verus! {

/// Where a stream that is no file is taken up again.
#[derive(Debug, PartialEq, Eq)]
pub enum ResumeToken {
    /// The cursor of a systemd journal.
    Journald { cursor: String },
}

/// Where a stream is taken up again, and when that was set down.
#[derive(Debug, PartialEq, Eq)]
pub struct StreamingCheckpoint {
    pub source_id: String,
    pub token: ResumeToken,
    /// Nanoseconds since the epoch.
    pub updated_at: u64,
}

/// What a stream's checkpoint says.
pub struct StreamingCheckpointView {
    pub source_id: Seq<char>,
    pub journald_cursor: Option<Seq<char>>,
    pub updated_at: u64,
}

impl View for StreamingCheckpoint {
    type V = StreamingCheckpointView;

    open spec fn view(&self) -> StreamingCheckpointView {
        StreamingCheckpointView {
            source_id: self.source_id@,
            journald_cursor: match self.token {
                ResumeToken::Journald { cursor } => Some(cursor@),
            },
            updated_at: self.updated_at,
        }
    }
}

impl StreamingCheckpoint {
    /// A place in a systemd journal.
    pub fn journald(source_id: &str, cursor: &str, updated_at: u64) -> (r: Self)
        ensures
            r@ == (StreamingCheckpointView {
                source_id: source_id@,
                journald_cursor: Some(cursor@),
                updated_at,
            }),
    {
        StreamingCheckpoint {
            source_id: source_id.to_owned(),
            token: ResumeToken::Journald { cursor: cursor.to_owned() },
            updated_at,
        }
    }

    /// The cursor, if the stream is a systemd journal.
    pub fn journald_cursor(&self) -> (r: Option<&str>)
        ensures
            crate::text::opt_str_view(r) == self@.journald_cursor,
    {
        match &self.token {
            ResumeToken::Journald { cursor } => Some(cursor.as_str()),
        }
    }

    /// The same checkpoint again.
    pub fn copy(&self) -> (r: Self)
        ensures
            r@ == self@,
    {
        StreamingCheckpoint {
            source_id: self.source_id.clone(),
            token: match &self.token {
                ResumeToken::Journald { cursor } => ResumeToken::Journald {
                    cursor: cursor.clone(),
                },
            },
            updated_at: self.updated_at,
        }
    }
}

/// How far a source has been read and delivered.
#[derive(Debug)]
pub struct Checkpoint {
    /// The path of the file: the key.
    pub path: String,
    /// How many bytes of the file are delivered.
    pub offset: u64,
    /// The inode of the file, which tells a new file at the same path.
    pub inode: u64,
    /// When this was set down, in nanoseconds since the epoch.
    pub updated_at: u64,
    /// Where a stream is taken up again.
    pub streaming: Option<StreamingCheckpoint>,
}

/// What a checkpoint says.
pub struct CheckpointView {
    pub path: Seq<char>,
    pub offset: u64,
    pub inode: u64,
    pub updated_at: u64,
    pub streaming: Option<StreamingCheckpointView>,
}

impl View for Checkpoint {
    type V = CheckpointView;

    open spec fn view(&self) -> CheckpointView {
        CheckpointView {
            path: self.path@,
            offset: self.offset,
            inode: self.inode,
            updated_at: self.updated_at,
            streaming: match self.streaming {
                Some(s) => Some(s@),
                None => None,
            },
        }
    }
}

impl Checkpoint {
    /// The same checkpoint again.
    pub fn copy(&self) -> (r: Self)
        ensures
            r@ == self@,
    {
        Checkpoint {
            path: self.path.clone(),
            offset: self.offset,
            inode: self.inode,
            updated_at: self.updated_at,
            streaming: match &self.streaming {
                Some(s) => Some(s.copy()),
                None => None,
            },
        }
    }
}

/// The key of a stream's checkpoint.
pub open spec fn stream_key(source_id: Seq<char>) -> Seq<char> {
    "stream:"@ + source_id
}

fn stream_key_of(source_id: &str) -> (r: String)
    ensures
        r@ == stream_key(source_id@),
{
    concat("stream:", source_id)
}

/// The checkpoint under which a stream's is kept.
pub open spec fn as_row(source_id: Seq<char>, s: StreamingCheckpointView) -> CheckpointView {
    CheckpointView {
        path: stream_key(source_id),
        offset: 0,
        inode: 0,
        updated_at: s.updated_at,
        streaming: Some(s),
    }
}

/// The checkpoints, by their keys.
pub struct CheckpointStore {
    rows: StrMap<Checkpoint>,
}

impl View for CheckpointStore {
    type V = Map<Seq<char>, CheckpointView>;

    closed spec fn view(&self) -> Map<Seq<char>, CheckpointView> {
        self.rows@.map_values(|c: Checkpoint| c@)
    }
}

/// What rows with keys stand for; of two rows with one key the later one counts.
pub open spec fn rows_map(rows: Seq<(String, Checkpoint)>) -> Map<Seq<char>, CheckpointView>
    decreases rows.len(),
{
    if rows.len() == 0 {
        Map::empty()
    } else {
        rows_map(rows.drop_last()).insert(rows.last().0@, rows.last().1@)
    }
}

impl CheckpointStore {
    /// No key has two rows.
    pub closed spec fn wf(&self) -> bool {
        self.rows.distinct()
    }

    /// No checkpoints yet.
    pub fn new() -> (r: Self)
        ensures
            r.wf(),
            r@ == Map::<Seq<char>, CheckpointView>::empty(),
    {
        let r = CheckpointStore { rows: StrMap::new() };
        assert(r@ =~= Map::<Seq<char>, CheckpointView>::empty());
        r
    }

    /// The checkpoints that stand in the store's file, each with its key.
    pub fn open(rows: Vec<(String, Checkpoint)>) -> (r: Self)
        ensures
            r.wf(),
            r@ == rows_map(rows@),
    {
        let mut store = CheckpointStore::new();
        let ghost all = rows@;
        assert(all.take(0) =~= seq![]);
        for row in iter: rows
            invariant
                iter.seq() == all,
                store.wf(),
                store@ == rows_map(all.take(iter.index() as int)),
        {
            let ghost i = iter.index() as int;
            assert(all.take(i + 1).drop_last() =~= all.take(i));
            store.put(row.0, row.1);
        }
        assert(all.take(all.len() as int) =~= all);
        store
    }

    /// What has to stand in the store's file. Opened again, it gives the same
    /// checkpoints.
    pub fn stored(&self) -> (r: Vec<(String, Checkpoint)>)
        requires
            self.wf(),
        ensures
            rows_map(r@) == self@,
            r@.len() == self@.dom().len(),
    {
        let mut out: Vec<(String, Checkpoint)> = Vec::new();
        let ghost entries = self.rows.entries@;
        let mut i: usize = 0;
        proof {
            assert(entries.take(0) =~= seq![]);
            assert(map_of(entries.take(0)).map_values(|c: Checkpoint| c@) =~= rows_map(out@));
        }
        while i < self.rows.entries.len()
            invariant
                i <= entries.len(),
                entries == self.rows.entries@,
                distinct_keys(entries),
                out@.len() == i,
                rows_map(out@) == map_of(entries.take(i as int)).map_values(|c: Checkpoint| c@),
            decreases self.rows.entries.len() - i,
        {
            let row = (self.rows.entries[i].0.clone(), self.rows.entries[i].1.copy());
            let ghost before = out@;
            let ghost part = entries.take(i as int);
            let ghost entry = entries[i as int];
            proof {
                lemma_pushed(part, entry);
                assert(part.push(entry) =~= entries.take(i + 1));
                lemma_position(part, entry.0@);
                if map_of(part).contains_key(entry.0@) {
                    let at = position(part, entry.0@);
                    assert(entries[at].0@ == entries[i as int].0@);
                }
                assert(map_of(part).insert(entry.0@, entry.1).map_values(|c: Checkpoint| c@)
                    =~= map_of(part).map_values(|c: Checkpoint| c@).insert(entry.0@, entry.1@));
            }
            out.push(row);
            assert(out@.drop_last() =~= before);
            i = i + 1;
        }
        proof {
            assert(entries.take(i as int) =~= entries);
            crate::strmap::lemma_map_len(entries);
            assert(self@.dom() =~= self.rows@.dom());
        }
        out
    }

    /// Sets a checkpoint down. The one with the same path is replaced.
    pub fn save(&mut self, checkpoint: &Checkpoint)
        requires
            old(self).wf(),
        ensures
            final(self).wf(),
            final(self)@ == old(self)@.insert(checkpoint.path@, checkpoint@),
    {
        self.put(checkpoint.path.clone(), checkpoint.copy());
    }

    /// Sets a checkpoint down under a key of its own.
    pub fn put(&mut self, key: String, checkpoint: Checkpoint)
        requires
            old(self).wf(),
        ensures
            final(self).wf(),
            final(self)@ == old(self)@.insert(key@, checkpoint@),
    {
        let ghost k = key@;
        let ghost v = checkpoint@;
        self.rows.insert(key, checkpoint);
        assert(self@ =~= old(self)@.insert(k, v));
    }

    /// The checkpoint of a path.
    pub fn load(&self, path: &str) -> (r: Option<Checkpoint>)
        ensures
            match r {
                Some(c) => self@.contains_key(path@) && self@[path@] == c@,
                None => !self@.contains_key(path@),
            },
    {
        match self.rows.get(path) {
            Some(c) => Some(c.copy()),
            None => None,
        }
    }

    /// Lets go of the checkpoint of a path.
    pub fn delete(&mut self, path: &str)
        requires
            old(self).wf(),
        ensures
            final(self).wf(),
            final(self)@ == old(self)@.remove(path@),
    {
        let mut keys: Vec<String> = Vec::new();
        keys.push(path.to_owned());
        let ghost texts = strings(keys@);
        let mut rows: StrMap<Checkpoint> = StrMap::new();
        core::mem::swap(&mut self.rows, &mut rows);
        self.rows = rows.retained(&keys, false);
        proof {
            assert(texts =~= seq![path@]);
            assert(texts[0] == path@);
            assert forall|k: Seq<char>| texts.contains(k) == (k == path@) by {
                if texts.contains(k) {
                    let i = choose|i: int| 0 <= i < texts.len() && texts[i] == k;
                }
            }
            assert(self@ =~= old(self)@.remove(path@));
        }
    }

    /// Sets down where a stream is taken up again.
    pub fn save_streaming(&mut self, source_id: &str, checkpoint: &StreamingCheckpoint)
        requires
            old(self).wf(),
        ensures
            final(self).wf(),
            final(self)@ == old(self)@.insert(
                stream_key(source_id@),
                as_row(source_id@, checkpoint@),
            ),
    {
        let row = Checkpoint {
            path: stream_key_of(source_id),
            offset: 0,
            inode: 0,
            updated_at: checkpoint.updated_at,
            streaming: Some(checkpoint.copy()),
        };
        self.save(&row);
    }

    /// Moves a stream's checkpoint to another source, over the one that is there,
    /// and says whether there was one to move.
    pub fn rekey_streaming(&mut self, old_source_id: &str, new_source_id: &str) -> (r: bool)
        requires
            old(self).wf(),
        ensures
            final(self).wf(),
            r == old(self)@.contains_key(stream_key(old_source_id@)),
            final(self)@ == if r {
                old(self)@.remove(stream_key(old_source_id@)).insert(
                    stream_key(new_source_id@),
                    old(self)@[stream_key(old_source_id@)],
                )
            } else {
                old(self)@
            },
    {
        let old_key = stream_key_of(old_source_id);
        match self.load(old_key.as_str()) {
            Some(row) => {
                self.delete(old_key.as_str());
                self.put(stream_key_of(new_source_id), row);
                true
            },
            None => false,
        }
    }

    /// Where a stream is taken up again.
    pub fn load_streaming(&self, source_id: &str) -> (r: Option<StreamingCheckpoint>)
        ensures
            match r {
                Some(s) => self@.contains_key(stream_key(source_id@)) && self@[stream_key(
                    source_id@,
                )].streaming == Some(s@),
                None => self@.contains_key(stream_key(source_id@)) ==> self@[stream_key(
                    source_id@,
                )].streaming is None,
            },
    {
        let key = stream_key_of(source_id);
        match self.load(key.as_str()) {
            Some(row) => row.streaming,
            None => None,
        }
    }

    /// How many checkpoints there are.
    pub fn count(&self) -> (r: usize)
        requires
            self.wf(),
        ensures
            self@.dom().finite(),
            r == self@.dom().len(),
    {
        proof {
            crate::strmap::lemma_map_len(self.rows.entries@);
            assert(self@.dom() =~= self.rows@.dom());
        }
        self.rows.len()
    }

    /// Lets go of every checkpoint whose path is not in the list, and says how
    /// many they were.
    pub fn prune_stale(&mut self, active_paths: &Vec<String>) -> (r: usize)
        requires
            old(self).wf(),
        ensures
            final(self).wf(),
            final(self)@ == old(self)@.restrict(listed_keys(strings(active_paths@), true)),
            old(self)@.dom().finite(),
            final(self)@.dom().finite(),
            r == old(self)@.dom().len() - final(self)@.dom().len(),
    {
        let before = self.count();
        let mut rows: StrMap<Checkpoint> = StrMap::new();
        core::mem::swap(&mut self.rows, &mut rows);
        let ghost all = rows;
        self.rows = rows.retained(active_paths, true);
        assert(self@ =~= old(self)@.restrict(listed_keys(strings(active_paths@), true)));
        assert(self.rows.entries@.len() <= all.entries@.len());
        let after = self.count();
        proof {
            crate::strmap::lemma_map_len(all.entries@);
            assert(old(self)@.dom() =~= all@.dom());
            crate::strmap::lemma_map_len(self.rows.entries@);
            assert(self@.dom() =~= self.rows@.dom());
        }
        before - after
    }
}

impl Default for CheckpointStore {
    fn default() -> (r: Self)
        ensures
            r.wf(),
            r@ == Map::<Seq<char>, CheckpointView>::empty(),
    {
        Self::new()
    }
}

// ---------------------------------------------------------------------------
// Laws
// ---------------------------------------------------------------------------

/// No source's checkpoint is that of another source.
pub proof fn stream_keys_stay_apart(a: Seq<char>, b: Seq<char>)
    requires
        a != b,
    ensures
        stream_key(a) != stream_key(b),
{
    let p = "stream:"@;
    assert(stream_key(a).skip(p.len() as int) =~= a);
    assert(stream_key(b).skip(p.len() as int) =~= b);
}

/// A checkpoint that moves takes its place with it: the new source is taken up
/// where the old one was left, and the old one has no checkpoint any more.
pub proof fn moved_checkpoints_keep_their_place(
    m: Map<Seq<char>, CheckpointView>,
    old_id: Seq<char>,
    new_id: Seq<char>,
)
    requires
        old_id != new_id,
        m.contains_key(stream_key(old_id)),
    ensures
        ({
            let after = m.remove(stream_key(old_id)).insert(
                stream_key(new_id),
                m[stream_key(old_id)],
            );
            &&& after[stream_key(new_id)] == m[stream_key(old_id)]
            &&& !after.contains_key(stream_key(old_id))
        }),
{
    stream_keys_stay_apart(old_id, new_id);
}

/// Pruning lets go of all that is not active and of nothing else.
pub proof fn pruning_keeps_the_active(
    m: Map<Seq<char>, CheckpointView>,
    active: Seq<Seq<char>>,
    path: Seq<char>,
)
    requires
        m.contains_key(path),
    ensures
        ({
            let after = m.restrict(listed_keys(active, true));
            &&& after.contains_key(path) == active.contains(path)
            &&& active.contains(path) ==> after[path] == m[path]
        }),
{
}

} // verus!
