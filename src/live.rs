//! The registry of live streams: for each broadcaster, whether they are live,
//! the movie, the cached group of pictures, and the viewers' channels.
use vstd::prelude::*;
use tokio::sync::mpsc::error::TrySendError;
use tokio::sync::mpsc::{Receiver, Sender};
use crate::media::{has_video_track, packet_views, Movie, Packet, PacketView};
use crate::mp4::{snapshot_mp4, snapshot_outcome, MuxError};
use crate::span::Span;

verus! {

/// `tokio::sync::mpsc::Sender`, the splitter's end of a viewer's channel,
/// held as an opaque value.
#[verifier::external_type_specification]
#[verifier::external_body]
#[verifier::reject_recursive_types(T)]
pub struct ExSender<T>(Sender<T>);

/// `tokio::sync::mpsc::Receiver`, a viewer's end of its channel, handed out
/// as an opaque value.
#[verifier::external_type_specification]
#[verifier::external_body]
#[verifier::reject_recursive_types(T)]
pub struct ExReceiver<T>(Receiver<T>);

/// Packets a viewer's channel holds before the viewer counts as too slow.
pub const VIEWER_CHANNEL_CAPACITY: usize = 512;

/// The bound a viewer's channel was made with: tokio's `Sender::max_capacity`.
pub uninterp spec fn capacity_of(sender: Sender<Packet>) -> nat;

/// Relies on `tokio::sync::mpsc::channel`: a bounded channel holding up to
/// `capacity` packets, its sender's `max_capacity` being `capacity`. It panics
/// on a capacity of 0 or above `usize::MAX >> 3`.
#[verifier::external_body]
fn bounded_channel(capacity: usize) -> (r: (Sender<Packet>, Receiver<Packet>))
    requires
        0 < capacity <= usize::MAX / 8,
    ensures
        capacity_of(r.0) == capacity,
{
    tokio::sync::mpsc::channel(capacity)
}

/// What became of one attempt to hand a packet to a viewer.
#[derive(Clone, Copy, Debug, PartialEq, Eq, Structural)]
pub enum SendOutcome {
    Sent,
    /// The viewer's channel is full: the viewer is too slow.
    Full,
    /// The viewer's receiver is gone.
    Closed,
}

/// Relies on `tokio::sync::mpsc::Sender::try_send`: queues the packet without
/// waiting, or reports a full or a closed channel. Which one depends on the
/// viewer's task, so nothing is promised.
#[verifier::external_body]
fn try_send(sender: &Sender<Packet>, packet: Packet) -> (r: SendOutcome) {
    match sender.try_send(packet) {
        Ok(()) => SendOutcome::Sent,
        Err(TrySendError::Full(_)) => SendOutcome::Full,
        Err(TrySendError::Closed(_)) => SendOutcome::Closed,
    }
}

/// The targets whose send succeeded, in their order.
pub open spec fn kept<S>(targets: Seq<S>, outcomes: Seq<SendOutcome>) -> Seq<S>
    decreases targets.len(),
{
    if targets.len() == 0 || outcomes.len() == 0 {
        Seq::empty()
    } else {
        (if outcomes[0] == SendOutcome::Sent {
            seq![targets[0]]
        } else {
            Seq::empty()
        }) + kept(targets.drop_first(), outcomes.drop_first())
    }
}

/// How many offers succeeded.
pub open spec fn sent_count(outcomes: Seq<SendOutcome>) -> nat
    decreases outcomes.len(),
{
    if outcomes.len() == 0 {
        0
    } else {
        (if outcomes[0] == SendOutcome::Sent {
            1nat
        } else {
            0nat
        }) + sent_count(outcomes.drop_first())
    }
}

/// After a packet write, the viewers left are those whose offer succeeded, in
/// their order: as many as the successful offers, all of them where every offer
/// succeeded, and none where none did.
pub proof fn lemma_kept<S>(targets: Seq<S>, outcomes: Seq<SendOutcome>)
    requires
        targets.len() == outcomes.len(),
    ensures
        kept(targets, outcomes).len() == sent_count(outcomes),
        (forall|i: int| 0 <= i < outcomes.len() ==> outcomes[i] == SendOutcome::Sent) ==> kept(
            targets,
            outcomes,
        ) == targets,
        (forall|i: int| 0 <= i < outcomes.len() ==> outcomes[i] != SendOutcome::Sent) ==> kept(
            targets,
            outcomes,
        ).len() == 0,
    decreases targets.len(),
{
    if targets.len() > 0 {
        let ts = targets.drop_first();
        let os = outcomes.drop_first();
        lemma_kept(ts, os);
        if forall|i: int| 0 <= i < outcomes.len() ==> outcomes[i] == SendOutcome::Sent {
            assert forall|i: int| 0 <= i < os.len() implies os[i] == SendOutcome::Sent by {
                assert(os[i] == outcomes[i + 1]);
            }
            assert(outcomes[0] == SendOutcome::Sent);
            assert(seq![targets[0]] + ts =~= targets);
        }
        if forall|i: int| 0 <= i < outcomes.len() ==> outcomes[i] != SendOutcome::Sent {
            assert forall|i: int| 0 <= i < os.len() implies os[i] != SendOutcome::Sent by {
                assert(os[i] == outcomes[i + 1]);
            }
            assert(outcomes[0] != SendOutcome::Sent);
        }
    }
}

/// Hands every packet of a broadcast to each attached viewer.
pub struct PacketSplitter {
    targets: Vec<Sender<Packet>>,
}

impl PacketSplitter {
    pub closed spec fn targets(&self) -> Seq<Sender<Packet>> {
        self.targets@
    }

    pub fn new() -> (r: PacketSplitter)
        ensures
            r.targets().len() == 0,
    {
        PacketSplitter { targets: Vec::new() }
    }

    /// Adds a viewer and returns the end it reads packets from.
    pub fn attach(&mut self) -> (r: Receiver<Packet>)
        ensures
            final(self).targets().len() == old(self).targets().len() + 1,
            final(self).targets().drop_last() == old(self).targets(),
            capacity_of(final(self).targets().last()) == VIEWER_CHANNEL_CAPACITY,
    {
        let (send, recv) = bounded_channel(VIEWER_CHANNEL_CAPACITY);
        self.targets.push(send);
        assert(self.targets@.drop_last() =~= old(self).targets@);
        recv
    }

    /// Offers the packet to every viewer without waiting, once each and in
    /// order, then removes each viewer whose channel was full or closed. The
    /// others stay, in their order. Returns what each offer came to.
    pub fn write_packet(&mut self, packet: &Packet) -> (r: Vec<SendOutcome>)
        ensures
            r@.len() == old(self).targets().len(),
            final(self).targets() == kept(old(self).targets(), r@),
    {
        let mut outcomes: Vec<SendOutcome> = Vec::new();
        let mut i: usize = 0;
        while i < self.targets.len()
            invariant
                i <= self.targets@.len(),
                outcomes@.len() == i,
                self.targets@ == old(self).targets@,
            decreases self.targets@.len() - i,
        {
            let o = try_send(&self.targets[i], packet.duplicate());
            outcomes.push(o);
            i = i + 1;
        }
        let ghost all = self.targets@;
        let n = self.targets.len();
        let mut j: usize = n;
        proof {
            assert(all.take(n as int) =~= all);
            assert(all.skip(n as int).len() == 0);
            assert(all.take(n as int) + kept(all.skip(n as int), outcomes@.skip(n as int)) =~= all);
        }
        while j > 0
            invariant
                j <= n,
                n == all.len(),
                outcomes@.len() == n,
                self.targets@ == all.take(j as int) + kept(all.skip(j as int), outcomes@.skip(j as int)),
            decreases j,
        {
            j = j - 1;
            proof {
                assert(all.skip(j as int).drop_first() =~= all.skip(j + 1));
                assert(outcomes@.skip(j as int).drop_first() =~= outcomes@.skip(j + 1));
                assert(all.skip(j as int)[0] == all[j as int]);
                assert(outcomes@.skip(j as int)[0] == outcomes@[j as int]);
            }
            let ghost rest = kept(all.skip(j + 1), outcomes@.skip(j + 1));
            if outcomes[j] != SendOutcome::Sent {
                self.targets.remove(j);
                assert(self.targets@ =~= all.take(j as int) + rest);
            } else {
                assert(all.take(j + 1) + rest =~= all.take(j as int) + (seq![all[j as int]] + rest));
            }
        }
        assert(all.skip(0) =~= all);
        assert(outcomes@.skip(0) =~= outcomes@);
        assert(self.targets@ =~= kept(all, outcomes@));
        outcomes
    }

    pub fn viewer_count(&self) -> (r: usize)
        ensures
            r == self.targets().len(),
    {
        self.targets.len()
    }
}

/// The GOP cache after a packet: a video keyframe starts a fresh cache holding
/// only itself; a later video frame joins a cache that has begun; anything else
/// leaves it as it is.
pub open spec fn gop_after(gop: Seq<PacketView>, p: PacketView, is_video: bool) -> Seq<PacketView> {
    if !is_video {
        gop
    } else if p.key {
        seq![p]
    } else if gop.len() > 0 {
        gop.push(p)
    } else {
        gop
    }
}

/// A cache holding one group of pictures: empty, or a keyframe followed by
/// frames that are not keyframes.
pub open spec fn gop_wf(gop: Seq<PacketView>) -> bool {
    gop.len() > 0 ==> (gop[0].key && forall|i: int| 1 <= i < gop.len() ==> !(#[trigger] gop[i]).key)
}

/// Each packet keeps the cache a single group of pictures, and the cache after
/// it is either the earlier cache with the packet added or left as it was, or
/// a fresh cache holding only the new keyframe: never a mixture of two groups.
pub proof fn lemma_gop_atomic(gop: Seq<PacketView>, p: PacketView, is_video: bool)
    requires
        gop_wf(gop),
    ensures
        gop_wf(gop_after(gop, p, is_video)),
        gop_after(gop, p, is_video) == seq![p] || gop_after(gop, p, is_video).take(
            gop.len() as int,
        ) == gop,
        is_video && p.key ==> gop_after(gop, p, is_video) == seq![p],
{
    let g = gop_after(gop, p, is_video);
    if is_video && !p.key && gop.len() > 0 {
        assert(g.take(gop.len() as int) =~= gop);
    } else if !(is_video && p.key) {
        assert(g.take(gop.len() as int) =~= gop);
    }
}

/// Why a request about a stream was turned down.
#[derive(Clone, Copy, Debug, PartialEq, Eq, Structural)]
pub enum LiveError {
    /// The broadcaster is live already.
    AlreadyLive,
    /// No such stream, or nothing to show for it.
    NotFound,
    Mux(MuxError),
}

/// A broadcaster's stream. It stays after the broadcast ends, with `is_live`
/// false, so that listings and previews outlive it.
pub struct LiveStream {
    pub name: String,
    /// Unix seconds of the latest start.
    pub started: i64,
    /// Unix seconds of the latest stop.
    pub stopped: Option<i64>,
    pub is_live: bool,
    pub movie: Option<Movie>,
    pub splitter: Option<PacketSplitter>,
    pub gop: Vec<Packet>,
}

impl LiveStream {
    pub fn new(name: String, now: i64) -> (r: LiveStream)
        ensures
            r.name@ == name@,
            r.started == now,
            r.stopped is None,
            !r.is_live,
            r.movie is None,
            r.splitter is None,
            r.gop@.len() == 0,
    {
        LiveStream {
            name,
            started: now,
            stopped: None,
            is_live: false,
            movie: None,
            splitter: None,
            gop: Vec::new(),
        }
    }
}

/// What a listing shows of a stream.
pub struct LiveStreamInfo {
    pub name: String,
    pub viewers: usize,
    pub is_live: bool,
    pub started: i64,
    pub stopped: Option<i64>,
}

/// The stream named `name`.
pub open spec fn is_stream_index(streams: Seq<LiveStream>, name: Seq<char>, i: int) -> bool {
    0 <= i < streams.len() && streams[i].name@ == name
}

/// A stream is live exactly when it has a splitter for viewers to attach to.
pub open spec fn live_has_splitter(streams: Seq<LiveStream>) -> bool {
    forall|i: int| 0 <= i < streams.len() ==> ((#[trigger] streams[i]).is_live <==> streams[i].splitter is Some)
}

proof fn lemma_live_splitter_update(old: Seq<LiveStream>, new: Seq<LiveStream>, i: int)
    requires
        live_has_splitter(old),
        new.len() == old.len(),
        0 <= i < old.len(),
        forall|j: int| 0 <= j < new.len() && j != i ==> new[j] == old[j],
        new[i].is_live <==> new[i].splitter is Some,
    ensures
        live_has_splitter(new),
{
    assert forall|j: int| 0 <= j < new.len() implies ((#[trigger] new[j]).is_live <==> new[j].splitter is Some) by {
        if j != i {
            assert(new[j] == old[j]);
        }
    }
}

pub open spec fn names_unique(streams: Seq<LiveStream>) -> bool {
    forall|i: int, j: int|
        0 <= i < streams.len() && 0 <= j < streams.len() && i != j ==> (#[trigger] streams[i]).name@
            != (#[trigger] streams[j]).name@
}

/// The registry of streams, by broadcaster name.
pub struct LiveStreamService {
    streams: Vec<LiveStream>,
}

impl LiveStreamService {
    pub closed spec fn streams(&self) -> Seq<LiveStream> {
        self.streams@
    }

    /// Each name names at most one stream.
    pub open spec fn wf(&self) -> bool {
        &&& names_unique(self.streams())
        &&& live_has_splitter(self.streams())
    }

    pub fn new() -> (r: LiveStreamService)
        ensures
            r.wf(),
            r.streams().len() == 0,
    {
        LiveStreamService { streams: Vec::new() }
    }

    /// Position of the stream with this name.
    pub fn find(&self, name: &String) -> (r: Option<usize>)
        requires
            self.wf(),
        ensures
            r is None ==> forall|i: int| !is_stream_index(self.streams(), name@, i),
            r is Some ==> is_stream_index(self.streams(), name@, r->Some_0 as int),
    {
        let mut i: usize = 0;
        while i < self.streams.len()
            invariant
                i <= self.streams@.len(),
                forall|j: int| 0 <= j < i ==> (#[trigger] self.streams@[j]).name@ != name@,
            decreases self.streams@.len() - i,
        {
            if self.streams[i].name.eq(name) {
                return Some(i);
            }
            i = i + 1;
        }
        None
    }

    /// Starts a broadcast for `name`: the stream is created if it is new, and
    /// fails with `AlreadyLive`, changing nothing, if it is live. Otherwise it
    /// becomes live with the movie, a splitter with no viewers and an empty
    /// GOP cache.
    pub fn new_stream(&mut self, name: String, movie: Movie, now: i64) -> (r: Result<
        (),
        LiveError,
    >)
        requires
            old(self).wf(),
        ensures
            final(self).wf(),
            r is Err <==> exists|i: int|
                is_stream_index(old(self).streams(), name@, i) && old(self).streams()[i].is_live,
            r is Err ==> r->Err_0 == LiveError::AlreadyLive && final(self).streams() == old(
                self,
            ).streams(),
            r is Ok ==> exists|i: int|
                is_stream_index(final(self).streams(), name@, i) && {
                    let s = #[trigger] final(self).streams()[i];
                    &&& s.is_live
                    &&& s.started == now
                    &&& s.movie == Some(movie)
                    &&& s.splitter is Some
                    &&& s.splitter->Some_0.targets().len() == 0
                    &&& s.gop@.len() == 0
                    &&& (forall|j: int|
                        0 <= j < old(self).streams().len() && j != i ==> final(self).streams()[j]
                            == old(self).streams()[j])
                    &&& (is_stream_index(old(self).streams(), name@, i) ==> s.stopped == old(
                        self,
                    ).streams()[i].stopped && final(self).streams().len() == old(
                        self,
                    ).streams().len())
                    &&& (!is_stream_index(old(self).streams(), name@, i) ==> i == old(
                        self,
                    ).streams().len() && s.stopped is None)
                },
    {
        let ghost nm = name@;
        let ghost mv = movie;
        let found = self.find(&name);
        let i = match found {
            Some(i) => i,
            None => {
                let n = self.streams.len();
                self.streams.push(LiveStream::new(name, now));
                proof {
                    assert forall|j: int| 0 <= j < self.streams@.len() implies ((
                    #[trigger] self.streams@[j]).is_live <==> self.streams@[j].splitter is Some) by {
                        if j < n as int {
                            assert(self.streams@[j] == old(self).streams@[j]);
                        }
                    }
                    assert forall|a: int, b: int|
                        0 <= a < self.streams@.len() && 0 <= b < self.streams@.len() && a != b
                            implies (#[trigger] self.streams@[a]).name@
                        != (#[trigger] self.streams@[b]).name@ by {
                        if a < n as int && b < n as int {
                            assert(old(self).streams@[a] == self.streams@[a]);
                            assert(old(self).streams@[b] == self.streams@[b]);
                        } else if a == n as int {
                            assert(!is_stream_index(old(self).streams@, nm, b));
                            assert(old(self).streams@[b] == self.streams@[b]);
                        } else {
                            assert(!is_stream_index(old(self).streams@, nm, a));
                            assert(old(self).streams@[a] == self.streams@[a]);
                        }
                    }
                }
                n
            },
        };
        proof {
            if found is None {
                assert forall|k: int| !(is_stream_index(old(self).streams@, nm, k)
                    && old(self).streams@[k].is_live) by {}
            } else {
                assert forall|k: int| is_stream_index(old(self).streams@, nm, k) implies k
                    == i as int by {
                    if k != i as int {
                        assert(old(self).streams@[k].name@ != old(self).streams@[i as int].name@);
                    }
                }
            }
        }
        if self.streams[i].is_live {
            return Err(LiveError::AlreadyLive);
        }
        let ghost mid = self.streams@;
        let mut s = self.streams.remove(i);
        s.is_live = true;
        s.started = now;
        s.movie = Some(movie);
        s.splitter = Some(PacketSplitter::new());
        s.gop = Vec::new();
        self.streams.insert(i, s);
        proof {
            assert(self.streams@ =~= mid.update(i as int, s));
            assert(self.streams@[i as int].movie == Some(mv));
            assert(mv == movie);
            assert(self.streams()[i as int] == self.streams@[i as int]);
            lemma_live_splitter_update(mid, self.streams@, i as int);
            assert(names_unique(self.streams@)) by {
                assert forall|a: int, b: int|
                    0 <= a < self.streams@.len() && 0 <= b < self.streams@.len() && a != b
                        implies (#[trigger] self.streams@[a]).name@
                    != (#[trigger] self.streams@[b]).name@ by {
                    assert(mid[a].name@ == self.streams@[a].name@);
                    assert(mid[b].name@ == self.streams@[b].name@);
                }
            }
            assert(is_stream_index(self.streams@, nm, i as int));
            if found is None {
                assert(!is_stream_index(old(self).streams@, nm, i as int));
            }
            assert forall|j: int|
                0 <= j < old(self).streams@.len() && j != i implies self.streams@[j]
                == old(self).streams@[j] by {
                assert(mid[j] == old(self).streams@[j]);
            }
        }
        Ok(())
    }

    /// Ends the broadcast of `name`: not live any more, stopped at `now`, and
    /// the splitter dropped, which closes every viewer's channel. The stream
    /// itself stays. Returns whether there was such a stream.
    pub fn stop_stream(&mut self, name: &String, now: i64) -> (r: bool)
        requires
            old(self).wf(),
        ensures
            final(self).wf(),
            r <==> exists|i: int| is_stream_index(old(self).streams(), name@, i),
            !r ==> final(self).streams() == old(self).streams(),
            r ==> final(self).streams().len() == old(self).streams().len(),
            r ==> forall|i: int|
                is_stream_index(old(self).streams(), name@, i) ==> {
                    let s = #[trigger] final(self).streams()[i];
                    &&& s.name@ == name@
                    &&& !s.is_live
                    &&& s.stopped == Some(now)
                    &&& s.splitter is None
                    &&& s.started == old(self).streams()[i].started
                    &&& s.gop == old(self).streams()[i].gop
                    &&& s.movie == old(self).streams()[i].movie
                    &&& (forall|j: int|
                        0 <= j < old(self).streams().len() && j != i ==> final(self).streams()[j]
                            == old(self).streams()[j])
                },
    {
        let i = match self.find(name) {
            Some(i) => i,
            None => {
                return false;
            },
        };
        let mut s = self.streams.remove(i);
        s.is_live = false;
        s.stopped = Some(now);
        s.splitter = None;
        self.streams.insert(i, s);
        proof {
            assert(self.streams@ =~= old(self).streams@.update(i as int, s));
            lemma_live_splitter_update(old(self).streams@, self.streams@, i as int);
            assert forall|k: int| is_stream_index(old(self).streams(), name@, k) implies k
                == i as int by {
                if k != i as int {
                    assert(old(self).streams@[k].name@ != old(self).streams@[i as int].name@);
                }
            }
            assert(names_unique(self.streams@)) by {
                assert forall|a: int, b: int|
                    0 <= a < self.streams@.len() && 0 <= b < self.streams@.len() && a != b
                        implies (#[trigger] self.streams@[a]).name@
                    != (#[trigger] self.streams@[b]).name@ by {
                    assert(old(self).streams@[a].name@ == self.streams@[a].name@);
                    assert(old(self).streams@[b].name@ == self.streams@[b].name@);
                }
            }
        }
        true
    }

    /// Feeds one packet of the broadcast `name`. A video packet goes through
    /// the GOP cache first; then the splitter offers it to every viewer.
    /// Returns `None`, changing nothing, where there is no such stream or it
    /// is not live.
    pub fn write_packet(&mut self, name: &String, packet: Packet) -> (r: Option<Vec<SendOutcome>>)
        requires
            old(self).wf(),
        ensures
            final(self).wf(),
            r is None <==> !exists|i: int|
                is_stream_index(old(self).streams(), name@, i) && old(
                    self,
                ).streams()[i].splitter is Some,
            r is None ==> final(self).streams() == old(self).streams(),
            r is Some ==> final(self).streams().len() == old(self).streams().len(),
            r is Some ==> forall|i: int|
                is_stream_index(old(self).streams(), name@, i) ==> {
                    let o = old(self).streams()[i];
                    let s = #[trigger] final(self).streams()[i];
                    let is_video = o.movie is Some && has_video_track(
                        o.movie->Some_0.tracks@,
                        packet.track_id,
                    );
                    &&& packet_views(s.gop@) == gop_after(packet_views(o.gop@), packet@, is_video)
                    &&& s.splitter is Some
                    &&& s.splitter->Some_0.targets() == kept(
                        o.splitter->Some_0.targets(),
                        r->Some_0@,
                    )
                    &&& r->Some_0@.len() == o.splitter->Some_0.targets().len()
                    &&& s.name == o.name && s.is_live == o.is_live && s.started == o.started
                        && s.stopped == o.stopped
                    &&& (forall|j: int|
                        0 <= j < old(self).streams().len() && j != i ==> final(self).streams()[j]
                            == old(self).streams()[j])
                },
    {
        let ghost nm = name@;
        let i = match self.find(name) {
            Some(i) => i,
            None => {
                return None;
            },
        };
        proof {
            assert forall|k: int| is_stream_index(old(self).streams@, nm, k) implies k
                == i as int by {
                if k != i as int {
                    assert(old(self).streams@[k].name@ != old(self).streams@[i as int].name@);
                }
            }
        }
        if self.streams[i].splitter.is_none() {
            return None;
        }
        let mut s = self.streams.remove(i);
        let ghost o = s;
        let is_video = match &s.movie {
            Some(m) => m.is_video_track(packet.track_id),
            None => false,
        };
        if is_video {
            if packet.key {
                let mut fresh: Vec<Packet> = Vec::new();
                fresh.push(packet.duplicate());
                s.gop = fresh;
                assert(packet_views(s.gop@) =~= seq![packet@]);
            } else if s.gop.len() > 0 {
                let ghost before = s.gop@;
                s.gop.push(packet.duplicate());
                assert(packet_views(s.gop@) =~= packet_views(before).push(packet@));
            }
        }
        let outcomes = match s.splitter {
            Some(mut sp) => {
                let outs = sp.write_packet(&packet);
                s.splitter = Some(sp);
                outs
            },
            None => Vec::new(),
        };
        self.streams.insert(i, s);
        proof {
            assert(self.streams@ =~= old(self).streams@.update(i as int, s));
            lemma_live_splitter_update(old(self).streams@, self.streams@, i as int);
            assert(names_unique(self.streams@)) by {
                assert forall|a: int, b: int|
                    0 <= a < self.streams@.len() && 0 <= b < self.streams@.len() && a != b
                        implies (#[trigger] self.streams@[a]).name@
                    != (#[trigger] self.streams@[b]).name@ by {
                    assert(old(self).streams@[a].name@ == self.streams@[a].name@);
                    assert(old(self).streams@[b].name@ == self.streams@[b].name@);
                }
            }
        }
        Some(outcomes)
    }

    /// Adds a viewer to the live broadcast `name`, returning the end it reads
    /// packets from; `None`, changing nothing, where nothing is live by that name.
    pub fn attach(&mut self, name: &String) -> (r: Option<Receiver<Packet>>)
        requires
            old(self).wf(),
        ensures
            final(self).wf(),
            r is None <==> !exists|i: int|
                is_stream_index(old(self).streams(), name@, i) && old(
                    self,
                ).streams()[i].splitter is Some,
            r is None ==> final(self).streams() == old(self).streams(),
            r is Some ==> final(self).streams().len() == old(self).streams().len(),
            r is Some ==> forall|i: int|
                is_stream_index(old(self).streams(), name@, i) ==> {
                    let o = old(self).streams()[i];
                    let s = #[trigger] final(self).streams()[i];
                    &&& s.splitter is Some
                    &&& s.splitter->Some_0.targets().len() == o.splitter->Some_0.targets().len() + 1
                    &&& s.splitter->Some_0.targets().drop_last() == o.splitter->Some_0.targets()
                    &&& capacity_of(s.splitter->Some_0.targets().last()) == VIEWER_CHANNEL_CAPACITY
                    &&& s.name == o.name && s.is_live == o.is_live
                    &&& (forall|j: int|
                        0 <= j < old(self).streams().len() && j != i ==> final(self).streams()[j]
                            == old(self).streams()[j])
                },
    {
        let ghost nm = name@;
        let i = match self.find(name) {
            Some(i) => i,
            None => {
                return None;
            },
        };
        proof {
            assert forall|k: int| is_stream_index(old(self).streams@, nm, k) implies k
                == i as int by {
                if k != i as int {
                    assert(old(self).streams@[k].name@ != old(self).streams@[i as int].name@);
                }
            }
        }
        if self.streams[i].splitter.is_none() {
            return None;
        }
        let mut s = self.streams.remove(i);
        let recv = match s.splitter {
            Some(mut sp) => {
                let recv = sp.attach();
                s.splitter = Some(sp);
                recv
            },
            None => {
                self.streams.insert(i, s);
                return None;
            },
        };
        self.streams.insert(i, s);
        proof {
            assert(self.streams@ =~= old(self).streams@.update(i as int, s));
            lemma_live_splitter_update(old(self).streams@, self.streams@, i as int);
            assert(names_unique(self.streams@)) by {
                assert forall|a: int, b: int|
                    0 <= a < self.streams@.len() && 0 <= b < self.streams@.len() && a != b
                        implies (#[trigger] self.streams@[a]).name@
                    != (#[trigger] self.streams@[b]).name@ by {
                    assert(old(self).streams@[a].name@ == self.streams@[a].name@);
                    assert(old(self).streams@[b].name@ == self.streams@[b].name@);
                }
            }
        }
        Some(recv)
    }

    /// Whether a publisher may start: its stream key names an account, and
    /// that account is not live already. One refused here is answered with
    /// `NetStream.Publish.BadName` and its connection closed.
    pub fn admits_publisher(&self, account: &Option<String>) -> (r: bool)
        requires
            self.wf(),
        ensures
            r <==> account is Some && !exists|i: int|
                is_stream_index(self.streams(), account->Some_0@, i) && self.streams()[i].is_live,
    {
        match account {
            Some(name) => !self.is_live(name),
            None => false,
        }
    }

    /// Whether a broadcast by `name` is live.
    pub fn is_live(&self, name: &String) -> (r: bool)
        requires
            self.wf(),
        ensures
            r <==> exists|i: int|
                is_stream_index(self.streams(), name@, i) && self.streams()[i].is_live,
    {
        match self.find(name) {
            Some(i) => {
                proof {
                    assert forall|k: int| is_stream_index(self.streams@, name@, k) implies k
                        == i as int by {
                        if k != i as int {
                            assert(self.streams@[k].name@ != self.streams@[i as int].name@);
                        }
                    }
                }
                self.streams[i].is_live
            },
            None => false,
        }
    }

    /// The movie of the stream `name`, where it has one.
    pub fn movie(&self, name: &String) -> (r: Option<&Movie>)
        requires
            self.wf(),
        ensures
            r is Some <==> exists|i: int|
                is_stream_index(self.streams(), name@, i) && self.streams()[i].movie is Some,
            r is Some ==> exists|i: int|
                is_stream_index(self.streams(), name@, i) && self.streams()[i].movie == Some(
                    *r->Some_0,
                ),
    {
        let i = match self.find(name) {
            Some(i) => i,
            None => {
                return None;
            },
        };
        proof {
            assert forall|k: int| is_stream_index(self.streams@, name@, k) implies k == i as int by {
                if k != i as int {
                    assert(self.streams@[k].name@ != self.streams@[i as int].name@);
                }
            }
        }
        match &self.streams[i].movie {
            Some(m) => Some(m),
            None => None,
        }
    }

    /// One entry per stream, in registry order.
    pub fn get_all_streams(&self) -> (r: Vec<LiveStreamInfo>)
        ensures
            r@.len() == self.streams().len(),
            forall|k: int|
                0 <= k < r@.len() ==> {
                    let info = #[trigger] r@[k];
                    let s = self.streams()[k];
                    &&& info.name@ == s.name@
                    &&& info.is_live == s.is_live
                    &&& info.started == s.started
                    &&& info.stopped == s.stopped
                    &&& info.viewers == match s.splitter {
                        Some(sp) => sp.targets().len(),
                        None => 0,
                    }
                },
    {
        let mut r: Vec<LiveStreamInfo> = Vec::new();
        let mut k: usize = 0;
        while k < self.streams.len()
            invariant
                k <= self.streams@.len(),
                r@.len() == k,
                forall|m: int|
                    0 <= m < k ==> {
                        let info = #[trigger] r@[m];
                        let s = self.streams@[m];
                        &&& info.name@ == s.name@
                        &&& info.is_live == s.is_live
                        &&& info.started == s.started
                        &&& info.stopped == s.stopped
                        &&& info.viewers == match s.splitter {
                            Some(sp) => sp.targets().len(),
                            None => 0,
                        }
                    },
            decreases self.streams@.len() - k,
        {
            let s = &self.streams[k];
            let viewers = match &s.splitter {
                Some(sp) => sp.viewer_count(),
                None => 0,
            };
            r.push(
                LiveStreamInfo {
                    name: s.name.clone(),
                    viewers,
                    is_live: s.is_live,
                    started: s.started,
                    stopped: s.stopped,
                },
            );
            k = k + 1;
        }
        r
    }

    /// A short MP4 of the cached group of pictures of `name`, live or not.
    /// `NotFound` where there is no such stream, its cache is empty or it has
    /// no movie.
    pub fn get_preview(&self, name: &String) -> (r: Result<Span, LiveError>)
        requires
            self.wf(),
        ensures
            r is Ok <==> exists|i: int|
                is_stream_index(self.streams(), name@, i) && {
                    let s = #[trigger] self.streams()[i];
                    &&& s.gop@.len() > 0
                    &&& s.movie is Some
                    &&& snapshot_outcome(s.movie->Some_0.tracks@, s.gop@) is Ok
                },
            r is Ok ==> exists|i: int|
                is_stream_index(self.streams(), name@, i) && r->Ok_0@ == snapshot_outcome(
                    (#[trigger] self.streams()[i]).movie->Some_0.tracks@,
                    self.streams()[i].gop@,
                )->Ok_0,
            r == Err::<Span, LiveError>(LiveError::NotFound) <==> !exists|i: int|
                is_stream_index(self.streams(), name@, i) && {
                    let s = #[trigger] self.streams()[i];
                    s.gop@.len() > 0 && s.movie is Some
                },
            r is Err && r->Err_0 != LiveError::NotFound ==> exists|i: int|
                is_stream_index(self.streams(), name@, i) && r->Err_0 == LiveError::Mux(
                    snapshot_outcome(
                        (#[trigger] self.streams()[i]).movie->Some_0.tracks@,
                        self.streams()[i].gop@,
                    )->Err_0,
                ),
    {
        let i = match self.find(name) {
            Some(i) => i,
            None => {
                return Err(LiveError::NotFound);
            },
        };
        proof {
            assert forall|k: int| is_stream_index(self.streams@, name@, k) implies k == i as int by {
                if k != i as int {
                    assert(self.streams@[k].name@ != self.streams@[i as int].name@);
                }
            }
        }
        let s = &self.streams[i];
        if s.gop.len() == 0 {
            return Err(LiveError::NotFound);
        }
        match &s.movie {
            None => Err(LiveError::NotFound),
            Some(m) => match snapshot_mp4(m, &s.gop) {
                Ok(span) => Ok(span),
                Err(e) => Err(LiveError::Mux(e)),
            },
        }
    }
}

} // verus!
