//! The downloader of archives: it keeps a bounded number of downloads in
//! flight, begins slowly, and asks again for archives that were not found
//! while later ones are there.

use crate::sync::queue::{
    downloaded_at, retried, ArchiveStatus, Queue, ARCHIVE_SLICE, MAX_CONCURRENCY,
};
use vstd::prelude::*;

verus! {

/// Why sync failed.
#[derive(Clone, Copy, Debug, PartialEq, Eq, Structural)]
pub enum SyncError {
    /// An answer came for an archive that the queue does not hold.
    BrokenQueue,
    /// The archive holds no masterchain block.
    EmptyArchivePackage,
    /// The archive holds another masterchain block than the one applied
    /// under the same sequence number.
    MasterchainBlockIdMismatch,
    /// The archive does not go on where the applied blocks end.
    BlocksSkippedInArchive,
    /// The archive holds no data for a block.
    BlockNotFound,
    /// The archive holds no proof for a block.
    BlockProofNotFound,
}

/// The answer to the download of an archive.
#[derive(Debug)]
pub enum ArchiveResponse {
    /// The archive.
    Found(Vec<u8>),
    /// There is no such archive yet.
    NotFound,
    /// The download failed.
    Failed,
}

/// What is to be done after an answer.
#[derive(Debug)]
pub enum ResponseAction {
    /// The archive that begins at this sequence number is to be applied.
    Apply(u32, Vec<u8>),
    /// The archives that begin at these sequence numbers are to be
    /// downloaded.
    Download(Vec<u32>),
}

/// The sequence numbers at which new downloads begin, in their order: those
/// of the run `seq_no`, `seq_no + 100`, ... that the queue does not hold,
/// as long as fewer than `concurrency` downloads are in flight and the
/// queue holds no more than `concurrency` archives.
pub open spec fn scheduled(
    queue: Set<u32>,
    pending: nat,
    concurrency: nat,
    seq_no: u32,
) -> Seq<u32>
    decreases u32::MAX - seq_no,
{
    if pending >= concurrency || queue.len() > concurrency {
        Seq::empty()
    } else if !queue.contains(seq_no) {
        seq![seq_no] + if seq_no > u32::MAX - ARCHIVE_SLICE {
            Seq::empty()
        } else {
            scheduled(
                queue.insert(seq_no),
                pending + 1,
                concurrency,
                (seq_no + ARCHIVE_SLICE) as u32,
            )
        }
    } else if seq_no > u32::MAX - ARCHIVE_SLICE {
        Seq::empty()
    } else {
        scheduled(queue, pending, concurrency, (seq_no + ARCHIVE_SLICE) as u32)
    }
}

/// `x`, or the greatest `usize` if `x` is greater.
pub open spec fn saturated(x: int) -> nat {
    if x > usize::MAX {
        usize::MAX as nat
    } else {
        x as nat
    }
}

/// Whether `started` is what scheduling begins: the downloads of `again`,
/// which lists the archives that are asked for again, each once, and then
/// the new downloads.
pub open spec fn started_by(
    queue: Map<u32, ArchiveStatus>,
    pending: usize,
    concurrency: usize,
    mc_seq_no: u32,
    is_synced: bool,
    again: Seq<u32>,
    started: Seq<u32>,
) -> bool {
    &&& again.no_duplicates()
    &&& forall|k: u32| again.contains(k) <==> retried(queue, is_synced, k)
    &&& started == again + scheduled(
        queue.dom(),
        saturated(pending + again.len()),
        concurrency as nat,
        mc_seq_no,
    )
}

/// The downloader of archives.
pub struct ArchiveDownloader {
    /// The archives that are being downloaded.
    pub queue: Queue,
    /// The number of downloads that may be in flight; 1 until the first
    /// archive is applied, then `MAX_CONCURRENCY`.
    pub concurrency: usize,
}

impl ArchiveDownloader {
    /// A downloader that begins slowly: with one download at a time.
    pub fn new() -> (r: Self)
        ensures
            r.queue@ == Map::<u32, ArchiveStatus>::empty(),
            r.concurrency == 1,
    {
        ArchiveDownloader { queue: Queue::new(MAX_CONCURRENCY), concurrency: 1 }
    }

    /// Takes the answer to the download of the archive that begins at
    /// `seq_no`, while the last masterchain block applied is `last_applied`.
    ///
    /// An archive that begins no later than right behind the last applied
    /// block is to be applied at once. A later one waits in the queue, and
    /// one that was not found is noted as such; either way archives that
    /// were not found are asked for again as far as that is due. A download
    /// that failed is begun again.
    ///
    /// Fails with `BrokenQueue`, and changes nothing, exactly when the
    /// answer is an archive that has to wait, or that none was found, and
    /// the queue holds no archive under `seq_no`.
    pub fn on_response(
        &mut self,
        seq_no: u32,
        response: ArchiveResponse,
        last_applied: u32,
        is_synced: bool,
    ) -> (r: Result<ResponseAction, SyncError>)
        ensures
            final(self).concurrency == old(self).concurrency,
            match response {
                ArchiveResponse::Failed => {
                    &&& r matches Ok(ResponseAction::Download(again))
                    &&& again@ == seq![seq_no]
                    &&& final(self).queue@ == old(self).queue@
                },
                ArchiveResponse::Found(data) => if seq_no <= last_applied + 1 {
                    &&& r matches Ok(ResponseAction::Apply(applied, bytes))
                    &&& applied == seq_no
                    &&& bytes == data
                    &&& final(self).queue@ == old(self).queue@
                } else if old(self).queue@.contains_key(seq_no) {
                    let parked = old(self).queue@.insert(seq_no, ArchiveStatus::Downloaded(data));
                    &&& r matches Ok(ResponseAction::Download(again))
                    &&& again@.no_duplicates()
                    &&& forall|k: u32| again@.contains(k) <==> retried(parked, is_synced, k)
                    &&& final(self).queue@.dom() == parked.dom()
                    &&& forall|k: u32|
                        parked.contains_key(k) ==> #[trigger] final(self).queue@[k] == if retried(
                            parked,
                            is_synced,
                            k,
                        ) {
                            ArchiveStatus::Downloading
                        } else {
                            parked[k]
                        }
                } else {
                    &&& r matches Err(SyncError::BrokenQueue)
                    &&& final(self).queue@ == old(self).queue@
                },
                ArchiveResponse::NotFound => if old(self).queue@.contains_key(seq_no) {
                    let noted = old(self).queue@.insert(seq_no, ArchiveStatus::NotFound);
                    &&& r matches Ok(ResponseAction::Download(again))
                    &&& again@.no_duplicates()
                    &&& forall|k: u32| again@.contains(k) <==> retried(noted, is_synced, k)
                    &&& final(self).queue@.dom() == noted.dom()
                    &&& forall|k: u32|
                        noted.contains_key(k) ==> #[trigger] final(self).queue@[k] == if retried(
                            noted,
                            is_synced,
                            k,
                        ) {
                            ArchiveStatus::Downloading
                        } else {
                            noted[k]
                        }
                } else {
                    &&& r matches Err(SyncError::BrokenQueue)
                    &&& final(self).queue@ == old(self).queue@
                },
            },
    {
        match response {
            ArchiveResponse::Failed => {
                let mut again: Vec<u32> = Vec::new();
                again.push(seq_no);
                assert(again@ =~= seq![seq_no]);
                Ok(ResponseAction::Download(again))
            },
            ArchiveResponse::Found(data) => {
                if seq_no as u64 <= last_applied as u64 + 1 {
                    Ok(ResponseAction::Apply(seq_no, data))
                } else {
                    match self.queue.set_status(seq_no, ArchiveStatus::Downloaded(data)) {
                        Some(_) => Ok(
                            ResponseAction::Download(
                                self.queue.retry_downloading_not_found_archives(is_synced),
                            ),
                        ),
                        None => Err(SyncError::BrokenQueue),
                    }
                }
            },
            ArchiveResponse::NotFound => {
                match self.queue.set_status(seq_no, ArchiveStatus::NotFound) {
                    Some(_) => Ok(
                        ResponseAction::Download(
                            self.queue.retry_downloading_not_found_archives(is_synced),
                        ),
                    ),
                    None => Err(SyncError::BrokenQueue),
                }
            },
        }
    }

    /// Takes the news that the archive that begins at `seq_no` was applied,
    /// or could not be. An archive that was applied leaves the queue, and
    /// from then on `MAX_CONCURRENCY` downloads may be in flight; returns
    /// `None`. One that could not be applied is downloaded again: returns
    /// its sequence number.
    pub fn on_applied(&mut self, seq_no: u32, applied: bool) -> (r: Option<u32>)
        ensures
            applied ==> r is None && final(self).queue@ == old(self).queue@.remove(seq_no)
                && final(self).concurrency == MAX_CONCURRENCY,
            !applied ==> r == Some(seq_no) && final(self).queue@ == old(self).queue@
                && final(self).concurrency == old(self).concurrency,
    {
        if applied {
            self.queue.0.remove(&seq_no);
            self.concurrency = MAX_CONCURRENCY;
            None
        } else {
            Some(seq_no)
        }
    }

    /// Takes an archive that is there and begins no later than at `target`
    /// out of the queue.
    pub fn finish_download(&mut self, target: u32) -> (r: Option<(u32, Vec<u8>)>)
        ensures
            final(self).concurrency == old(self).concurrency,
            match r {
                Some((seq_no, data)) => {
                    &&& seq_no <= target
                    &&& old(self).queue@.contains_key(seq_no)
                    &&& old(self).queue@[seq_no] == ArchiveStatus::Downloaded(data)
                    &&& final(self).queue@ == old(self).queue@.remove(seq_no)
                },
                None => {
                    &&& forall|k: u32| !(downloaded_at(old(self).queue@, k) && k <= target)
                    &&& final(self).queue@ == old(self).queue@
                },
            },
    {
        self.queue.finish_download(target)
    }

    /// Schedules downloads from the masterchain block `mc_seq_no` on, while
    /// `pending` downloads are in flight: first those that are asked for
    /// again, then new ones. Returns the sequence numbers at which the
    /// downloads begin, which are all `Downloading` in the queue.
    pub fn start_downloads(&mut self, pending: usize, mc_seq_no: u32, is_synced: bool) -> (r: Vec<
        u32,
    >)
        ensures
            final(self).concurrency == old(self).concurrency,
            exists|again: Seq<u32>| #[trigger]
                started_by(
                    old(self).queue@,
                    pending,
                    old(self).concurrency,
                    mc_seq_no,
                    is_synced,
                    again,
                    r@,
                ),
            forall|k: u32|
                #![trigger final(self).queue@.contains_key(k)]
                #![trigger r@.contains(k)]
                final(self).queue@.contains_key(k) <==> old(self).queue@.contains_key(k)
                    || r@.contains(k),
            forall|k: u32|
                final(self).queue@.contains_key(k) ==> #[trigger] final(self).queue@[k]
                    == if r@.contains(k) {
                    ArchiveStatus::Downloading
                } else {
                    old(self).queue@[k]
                },
    {
        let mut started = self.queue.retry_downloading_not_found_archives(is_synced);
        let ghost again = started@;
        let ghost before = self.queue@;
        let mut in_flight = pending.saturating_add(started.len());
        let ghost goal = scheduled(
            before.dom(),
            in_flight as nat,
            self.concurrency as nat,
            mc_seq_no,
        );
        let ghost fresh = Seq::<u32>::empty();
        let mut seq_no = mc_seq_no;
        let mut more = true;
        proof {
            assert(fresh + goal =~= goal);
            assert(again + fresh =~= again);
        }
        while more && in_flight < self.concurrency && self.queue.0.len() <= self.concurrency
            invariant
                self.concurrency == old(self).concurrency,
                before.dom() == old(self).queue@.dom(),
                started@ == again + fresh,
                forall|k: u32|
                    #![trigger self.queue@.contains_key(k)]
                    #![trigger fresh.contains(k)]
                    self.queue@.contains_key(k) <==> before.contains_key(k) || fresh.contains(k),
                forall|k: u32|
                    self.queue@.contains_key(k) ==> #[trigger] self.queue@[k]
                        == if fresh.contains(k) {
                        ArchiveStatus::Downloading
                    } else {
                        before[k]
                    },
                more ==> goal == fresh + scheduled(
                    self.queue@.dom(),
                    in_flight as nat,
                    self.concurrency as nat,
                    seq_no,
                ),
                !more ==> goal == fresh,
            decreases
                    if more {
                        1int
                    } else {
                        0int
                    },
                    u32::MAX - seq_no,
        {
            let ghost dom = self.queue@.dom();
            if !self.queue.0.contains_key(&seq_no) {
                self.queue.0.insert(seq_no, ArchiveStatus::Downloading);
                started.push(seq_no);
                in_flight = in_flight + 1;
                proof {
                    let next = fresh.push(seq_no);
                    lemma_push_contains(fresh, seq_no);
                    assert(self.queue@.dom() =~= dom.insert(seq_no));
                    assert(fresh + (seq![seq_no] + Seq::<u32>::empty()) =~= next);
                    if seq_no <= u32::MAX - ARCHIVE_SLICE {
                        assert(fresh + (seq![seq_no] + scheduled(
                            dom.insert(seq_no),
                            in_flight as nat,
                            self.concurrency as nat,
                            (seq_no + ARCHIVE_SLICE) as u32,
                        )) =~= next + scheduled(
                            dom.insert(seq_no),
                            in_flight as nat,
                            self.concurrency as nat,
                            (seq_no + ARCHIVE_SLICE) as u32,
                        ));
                    }
                    assert(again + fresh + seq![seq_no] =~= again + next);
                    assert forall|k: u32|
                        #![trigger self.queue@.contains_key(k)]
                        #![trigger next.contains(k)]
                        self.queue@.contains_key(k) <==> before.contains_key(k) || next.contains(
                            k,
                        ) by {
                        assert(next.contains(k) <==> fresh.contains(k) || k == seq_no);
                        assert(self.queue@.contains_key(k) <==> dom.contains(k) || k == seq_no);
                    }
                    assert forall|k: u32| self.queue@.contains_key(k) implies #[trigger] self.queue@[k]
                        == if next.contains(k) {
                        ArchiveStatus::Downloading
                    } else {
                        before[k]
                    } by {
                        assert(next.contains(k) <==> fresh.contains(k) || k == seq_no);
                    }
                    fresh = next;
                }
            }
            if seq_no > u32::MAX - ARCHIVE_SLICE {
                more = false;
            } else {
                seq_no = seq_no + ARCHIVE_SLICE;
            }
        }
        proof {
            assert(fresh + Seq::<u32>::empty() =~= fresh);
            assert(goal == fresh);
            assert(started_by(
                old(self).queue@,
                pending,
                old(self).concurrency,
                mc_seq_no,
                is_synced,
                again,
                started@,
            ));
            assert forall|k: u32|
                #![trigger self.queue@.contains_key(k)]
                #![trigger started@.contains(k)]
                self.queue@.contains_key(k) <==> old(self).queue@.contains_key(k)
                    || started@.contains(k) by {
                assert(before.contains_key(k) <==> old(self).queue@.contains_key(k));
                if again.contains(k) {
                    let i = choose|i: int| 0 <= i < again.len() && again[i] == k;
                    assert(started@[i] == k);
                    assert(retried(old(self).queue@, is_synced, k));
                }
                if started@.contains(k) {
                    let i = choose|i: int| 0 <= i < started@.len() && started@[i] == k;
                    if i < again.len() {
                        assert(again[i] == k);
                        assert(again.contains(k));
                    } else {
                        assert(fresh[i - again.len()] == k);
                        assert(fresh.contains(k));
                    }
                }
                if fresh.contains(k) {
                    let i = choose|i: int| 0 <= i < fresh.len() && fresh[i] == k;
                    assert(started@[again.len() + i] == k);
                }
            }
            assert forall|k: u32| self.queue@.contains_key(k) implies #[trigger] self.queue@[k]
                == if started@.contains(k) {
                ArchiveStatus::Downloading
            } else {
                old(self).queue@[k]
            } by {
                if fresh.contains(k) {
                    let i = choose|i: int| 0 <= i < fresh.len() && fresh[i] == k;
                    assert(started@[again.len() + i] == k);
                } else if again.contains(k) {
                    let i = choose|i: int| 0 <= i < again.len() && again[i] == k;
                    assert(started@[i] == k);
                } else if started@.contains(k) {
                    let i = choose|i: int| 0 <= i < started@.len() && started@[i] == k;
                    if i < again.len() {
                        assert(again[i] == k);
                    } else {
                        assert(fresh[i - again.len()] == k);
                    }
                }
            }
        }
        started
    }
}

/// A list with one more element holds that element and what it held.
pub proof fn lemma_push_contains(list: Seq<u32>, x: u32)
    ensures
        forall|k: u32| list.push(x).contains(k) <==> list.contains(k) || k == x,
{
    assert forall|k: u32| list.push(x).contains(k) <==> list.contains(k) || k == x by {
        if list.contains(k) {
            let i = choose|i: int| 0 <= i < list.len() && list[i] == k;
            assert(list.push(x)[i] == k);
        }
        if k == x {
            assert(list.push(x)[list.len() as int] == k);
        }
        if list.push(x).contains(k) {
            let i = choose|i: int| 0 <= i < list.push(x).len() && list.push(x)[i] == k;
            if i < list.len() {
                assert(list[i] == k);
            }
        }
    }
}

} // verus!
