//! The queue of archives that are being downloaded.

use std::collections::HashMap;
use vstd::prelude::*;

verus! {

/// The most archives that are downloaded at a time.
pub const MAX_CONCURRENCY: usize = 8;

/// The number of masterchain blocks in one archive.
pub const ARCHIVE_SLICE: u32 = 100;

/// How far the download of an archive has come.
#[derive(Debug)]
pub enum ArchiveStatus {
    /// The archive was asked for.
    Downloading,
    /// No archive was found.
    NotFound,
    /// The archive is there.
    Downloaded(Vec<u8>),
}

/// Whether `queue` holds an archive that is there under `seq_no`.
pub open spec fn downloaded_at(queue: Map<u32, ArchiveStatus>, seq_no: u32) -> bool {
    queue.contains_key(seq_no) && queue[seq_no] is Downloaded
}

/// Whether `queue` holds an archive that was not found under `seq_no`.
pub open spec fn not_found_at(queue: Map<u32, ArchiveStatus>, seq_no: u32) -> bool {
    queue.contains_key(seq_no) && queue[seq_no] is NotFound
}

/// Whether `latest` is the highest sequence number under which `queue`
/// holds an archive that is there.
pub open spec fn is_latest_downloaded(queue: Map<u32, ArchiveStatus>, latest: u32) -> bool {
    downloaded_at(queue, latest) && forall|k: u32| downloaded_at(queue, k) ==> k <= latest
}

/// Whether `earliest` is the lowest sequence number of `queue`.
pub open spec fn is_earliest(queue: Map<u32, ArchiveStatus>, earliest: u32) -> bool {
    queue.contains_key(earliest) && forall|k: u32| queue.contains_key(k) ==> earliest <= k
}

/// Whether every archive of `queue` was not found.
pub open spec fn all_not_found(queue: Map<u32, ArchiveStatus>) -> bool {
    forall|k: u32| queue.contains_key(k) ==> queue[k] is NotFound
}

/// Whether the archive under `seq_no` is asked for again: it was not found,
/// and an archive behind it is there, so that the gap cannot last; or
/// nothing is there, the node is not in sync, every archive was not found,
/// and it is the first of them.
pub open spec fn retried(queue: Map<u32, ArchiveStatus>, is_synced: bool, seq_no: u32) -> bool {
    not_found_at(queue, seq_no) && if exists|latest: u32| is_latest_downloaded(queue, latest) {
        exists|latest: u32| is_latest_downloaded(queue, latest) && seq_no <= latest
    } else {
        !is_synced && all_not_found(queue) && is_earliest(queue, seq_no)
    }
}

/// The queue of archives that are being downloaded, by the sequence number
/// of the masterchain block that each begins with.
pub struct Queue(pub HashMap<u32, ArchiveStatus>);

impl View for Queue {
    type V = Map<u32, ArchiveStatus>;

    open spec fn view(&self) -> Map<u32, ArchiveStatus> {
        self.0@
    }
}

impl Queue {
    /// An empty queue with room for `size` archives.
    pub fn new(size: usize) -> (r: Self)
        ensures
            r@ == Map::<u32, ArchiveStatus>::empty(),
    {
        Queue(HashMap::with_capacity(size))
    }

    /// Sets the status of the archive under `seq_no`. Returns `None`, and
    /// changes nothing, exactly when the queue holds no such archive.
    pub fn set_status(&mut self, seq_no: u32, status: ArchiveStatus) -> (r: Option<()>)
        ensures
            old(self)@.contains_key(seq_no) ==> r is Some && final(self)@ == old(self)@.insert(
                seq_no,
                status,
            ),
            !old(self)@.contains_key(seq_no) ==> r is None && final(self)@ == old(self)@,
    {
        if self.0.contains_key(&seq_no) {
            self.0.insert(seq_no, status);
            Some(())
        } else {
            None
        }
    }

    /// Takes an archive that is there and begins no later than at `id` out
    /// of the queue. Returns `None`, and changes nothing, exactly when there
    /// is no such archive.
    pub fn finish_download(&mut self, id: u32) -> (r: Option<(u32, Vec<u8>)>)
        ensures
            match r {
                Some((seq_no, data)) => {
                    &&& seq_no <= id
                    &&& downloaded_at(old(self)@, seq_no)
                    &&& old(self)@[seq_no] == ArchiveStatus::Downloaded(data)
                    &&& final(self)@ == old(self)@.remove(seq_no)
                },
                None => {
                    &&& forall|k: u32| !(downloaded_at(old(self)@, k) && k <= id)
                    &&& final(self)@ == old(self)@
                },
            },
    {
        let mut ready: Option<u32> = None;
        for key in iter: self.0.keys()
            invariant
                match ready {
                    Some(seq_no) => downloaded_at(self@, seq_no) && seq_no <= id,
                    None => forall|i: int|
                        0 <= i < iter.index() ==> !(downloaded_at(self@, *iter.seq()[i])
                            && *iter.seq()[i] <= id),
                },
        {
            let downloaded = match self.0.get(key) {
                Some(ArchiveStatus::Downloaded(_)) => true,
                _ => false,
            };
            if downloaded && *key <= id && ready.is_none() {
                ready = Some(*key);
            }
        }
        match ready {
            Some(seq_no) => match self.0.remove(&seq_no) {
                Some(ArchiveStatus::Downloaded(data)) => Some((seq_no, data)),
                _ => None,
            },
            None => None,
        }
    }

    /// Asks again for archives that were not found: for every one that
    /// begins no later than the last archive that is there; or, if none is
    /// there, the node is not in sync and every archive was not found, for
    /// the first one. Returns their sequence numbers, each once; their
    /// status is `Downloading` again.
    pub fn retry_downloading_not_found_archives(&mut self, is_synced: bool) -> (r: Vec<u32>)
        ensures
            r@.no_duplicates(),
            forall|k: u32| r@.contains(k) <==> retried(old(self)@, is_synced, k),
            final(self)@.dom() == old(self)@.dom(),
            forall|k: u32|
                final(self)@.contains_key(k) ==> #[trigger] final(self)@[k] == if retried(
                    old(self)@,
                    is_synced,
                    k,
                ) {
                    ArchiveStatus::Downloading
                } else {
                    old(self)@[k]
                },
    {
        let again = match self.latest_downloaded() {
            Some(latest) => self.not_found_up_to(latest),
            None => {
                let mut again: Vec<u32> = Vec::new();
                if !is_synced {
                    match self.earliest_if_all_not_found() {
                        Some(earliest) => {
                            again.push(earliest);
                            assert(again@[0] == earliest);
                        },
                        None => {},
                    }
                }
                again
            },
        };
        assert forall|k: u32| again@.contains(k) <==> retried(self@, is_synced, k) by {
            if again@.contains(k) {
                assert(retried(self@, is_synced, k));
            }
            if retried(self@, is_synced, k) {
                assert(again@.contains(k));
            }
        }
        let mut i: usize = 0;
        while i < again.len()
            invariant
                i <= again@.len(),
                forall|k: u32| again@.contains(k) <==> retried(old(self)@, is_synced, k),
                self@.dom() == old(self)@.dom(),
                forall|k: u32|
                    self@.contains_key(k) ==> #[trigger] self@[k] == if exists|j: int|
                        0 <= j < i && again@[j] == k {
                        ArchiveStatus::Downloading
                    } else {
                        old(self)@[k]
                    },
            decreases again@.len() - i,
        {
            let seq_no = again[i];
            assert(again@.contains(seq_no));
            assert(old(self)@.contains_key(seq_no));
            self.0.insert(seq_no, ArchiveStatus::Downloading);
            assert(self@.dom() =~= old(self)@.dom());
            i += 1;
        }
        assert forall|k: u32| final(self)@.contains_key(k) implies #[trigger] final(self)@[k]
            == if retried(old(self)@, is_synced, k) {
            ArchiveStatus::Downloading
        } else {
            old(self)@[k]
        } by {
            if retried(old(self)@, is_synced, k) {
                assert(again@.contains(k));
            }
            if exists|j: int| 0 <= j < again@.len() && again@[j] == k {
                assert(again@.contains(k));
            }
        }
        again
    }

    /// The highest sequence number under which an archive is there.
    pub fn latest_downloaded(&self) -> (r: Option<u32>)
        ensures
            match r {
                Some(latest) => is_latest_downloaded(self@, latest),
                None => forall|k: u32| !downloaded_at(self@, k),
            },
    {
        let mut latest: Option<u32> = None;
        for key in iter: self.0.keys()
            invariant
                match latest {
                    Some(latest) => downloaded_at(self@, latest) && forall|i: int|
                        0 <= i < iter.index() && downloaded_at(self@, *iter.seq()[i])
                            ==> *iter.seq()[i] <= latest,
                    None => forall|i: int|
                        0 <= i < iter.index() ==> !downloaded_at(self@, *iter.seq()[i]),
                },
        {
            let downloaded = match self.0.get(key) {
                Some(ArchiveStatus::Downloaded(_)) => true,
                _ => false,
            };
            if downloaded {
                match latest {
                    Some(other) => if other < *key {
                        latest = Some(*key);
                    },
                    None => {
                        latest = Some(*key);
                    },
                }
            }
        }
        latest
    }

    /// The lowest sequence number of the queue, if every archive of the
    /// queue was not found.
    pub fn earliest_if_all_not_found(&self) -> (r: Option<u32>)
        ensures
            match r {
                Some(earliest) => all_not_found(self@) && is_earliest(self@, earliest),
                None => !all_not_found(self@) || forall|k: u32| !self@.contains_key(k),
            },
    {
        let mut earliest: Option<u32> = None;
        for key in iter: self.0.keys()
            invariant
                forall|i: int| 0 <= i < iter.index() ==> self@[*iter.seq()[i]] is NotFound,
                match earliest {
                    Some(earliest) => self@.contains_key(earliest) && forall|i: int|
                        0 <= i < iter.index() ==> earliest <= *iter.seq()[i],
                    None => iter.index() == 0,
                },
        {
            let not_found = match self.0.get(key) {
                Some(ArchiveStatus::NotFound) => true,
                _ => false,
            };
            if !not_found {
                return None;
            }
            match earliest {
                Some(other) => if *key < other {
                    earliest = Some(*key);
                },
                None => {
                    earliest = Some(*key);
                },
            }
        }
        earliest
    }

    /// The sequence numbers, each once, of the archives up to `latest` that
    /// were not found.
    pub fn not_found_up_to(&self, latest: u32) -> (r: Vec<u32>)
        ensures
            r@.no_duplicates(),
            forall|k: u32| r@.contains(k) <==> not_found_at(self@, k) && k <= latest,
    {
        let mut found: Vec<u32> = Vec::new();
        for key in iter: self.0.keys()
            invariant
                iter.seq().no_duplicates(),
                found@.no_duplicates(),
                forall|k: u32|
                    found@.contains(k) <==> not_found_at(self@, k) && k <= latest && exists|i: int|
                        0 <= i < iter.index() && *iter.seq()[i] == k,
        {
            let not_found = match self.0.get(key) {
                Some(ArchiveStatus::NotFound) => true,
                _ => false,
            };
            let ghost before = found@;
            if not_found && *key <= latest {
                found.push(*key);
                proof {
                    assert forall|k: u32| found@.contains(k) implies not_found_at(self@, k) && k
                        <= latest && exists|i: int|
                        0 <= i < iter.index() + 1 && *iter.seq()[i] == k by {
                        if k != *key {
                            assert(before.contains(k));
                        } else {
                            assert(*iter.seq()[iter.index()] == k);
                        }
                    }
                    assert(!before.contains(*key)) by {
                        if before.contains(*key) {
                            let i = choose|i: int|
                                0 <= i < iter.index() && *iter.seq()[i] == *key;
                            assert(iter.seq()[i] == iter.seq()[iter.index()]);
                        }
                    }
                    assert forall|k: u32|
                        not_found_at(self@, k) && k <= latest && (exists|i: int|
                            0 <= i < iter.index() + 1 && *iter.seq()[i] == k) implies found@.contains(
                        k,
                    ) by {
                        let i = choose|i: int| 0 <= i < iter.index() + 1 && *iter.seq()[i] == k;
                        if i < iter.index() {
                            assert(before.contains(k));
                            let j = choose|j: int| 0 <= j < before.len() && before[j] == k;
                            assert(found@[j] == k);
                        } else {
                            assert(found@[before.len() as int] == k);
                        }
                    }
                }
            } else {
                proof {
                    assert forall|k: u32|
                        not_found_at(self@, k) && k <= latest && (exists|i: int|
                            0 <= i < iter.index() + 1 && *iter.seq()[i] == k) implies found@.contains(
                        k,
                    ) by {
                        let i = choose|i: int| 0 <= i < iter.index() + 1 && *iter.seq()[i] == k;
                        assert(i < iter.index());
                    }
                }
            }
        }
        found
    }
}

} // verus!
