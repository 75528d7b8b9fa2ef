//! The playback controller: owns the playlist, the current selection and
//! the play/pause flag, and drives the output sink.
//!
//! The sink is the player's single connection to the audio device. The
//! controller records the pause state it has commanded (`sink_paused`);
//! whether the sink still holds audio is genuinely external (a track runs
//! out on its own), so [`AudioPlayer::monitor_tick`] asks the sink and
//! promises what follows from either answer.

use vstd::prelude::*;
use vstd::string::*;

use crate::scan::build_playlist;
use crate::scan::kept_paths;
use crate::scan::sort_by_name;
use crate::scan::tracks_match;
use crate::scan::views_of;
use crate::Track;

verus! {

/// The output sink: the single live connection to the audio device.
/// It holds at most one track at a time; the player owns the sequencing.
///
/// The sink is an external collaborator: nothing is promised of its
/// methods, and every contract of the player states what holds whatever
/// the sink answers.
pub trait AudioSink {
    /// Replaces whatever the sink holds with the decoded content of the
    /// file at `path` and starts playing it. Returns false when the file
    /// cannot be opened or decoded; the sink is then expected to keep
    /// whatever it held before.
    fn load_and_play(&mut self, path: &str) -> bool;

    /// Pauses playback.
    fn pause(&mut self);

    /// Resumes paused playback.
    fn resume(&mut self);

    /// True when the sink holds nothing, because it finished playing
    /// what it was given or was never given anything.
    fn is_empty(&self) -> bool;
}

/// The playback controller's state: the playlist, the selection, the
/// logical play flag, the pause state last commanded to the sink, and
/// the extension allow-list used when loading a directory.
pub struct AudioPlayer {
    pub songs: Vec<Track>,
    pub current_index: Option<usize>,
    pub playing: bool,
    pub sink_paused: bool,
    pub allowed_exts: Vec<String>,
}

/// The default extension allow-list.
pub open spec fn default_allowed() -> Seq<Seq<char>> {
    seq!["mp3"@, "wav"@, "flac"@, "ogg"@]
}

impl AudioPlayer {
    /// The selection as an index into the playlist, or -1 when nothing
    /// is selected. A recorded index at or past the end of the playlist
    /// counts as no selection.
    pub open spec fn sel(self) -> int {
        match self.current_index {
            Some(i) => if (i as int) < self.songs@.len() {
                i as int
            } else {
                -1
            },
            None => -1,
        }
    }

    /// The index that `next` moves to: one past the selection, wrapping
    /// to the first track; the first track when nothing is selected.
    pub open spec fn next_target(self) -> int {
        if self.sel() >= 0 {
            if self.sel() + 1 < self.songs@.len() {
                self.sel() + 1
            } else {
                0
            }
        } else {
            0
        }
    }

    /// The index that `previous` moves to: one before the selection,
    /// wrapping to the last track; the first track when nothing is
    /// selected.
    pub open spec fn prev_target(self) -> int {
        if self.sel() >= 0 {
            if self.sel() == 0 {
                self.songs@.len() - 1
            } else {
                self.sel() - 1
            }
        } else {
            0
        }
    }

    /// The state after track `i` has started playing.
    pub open spec fn after_play(self, i: int) -> AudioPlayer {
        AudioPlayer {
            current_index: Some(i as usize),
            playing: true,
            sink_paused: false,
            ..self
        }
    }

    /// The track the selection refers to, if any.
    pub open spec fn spec_current_track(self) -> Option<Track> {
        if self.sel() >= 0 {
            Some(self.songs@[self.sel()])
        } else {
            None
        }
    }

    /// A fresh player: empty playlist, no selection, not playing, sink
    /// not paused, and the default extension allow-list.
    pub fn new() -> (p: AudioPlayer)
        ensures
            p.songs@.len() == 0,
            p.current_index is None,
            !p.playing,
            !p.sink_paused,
            views_of(p.allowed_exts@) =~= default_allowed(),
    {
        let mut allowed: Vec<String> = Vec::new();
        allowed.push(String::from_str("mp3"));
        allowed.push(String::from_str("wav"));
        allowed.push(String::from_str("flac"));
        allowed.push(String::from_str("ogg"));
        proof {
            assert(views_of(allowed@) =~= default_allowed());
        }
        AudioPlayer {
            songs: Vec::new(),
            current_index: None,
            playing: false,
            sink_paused: false,
            allowed_exts: allowed,
        }
    }

    /// Replaces the playlist with the accepted entries among `entries`,
    /// sorted by base name and numbered from zero, and resets the
    /// selection and the play flag. The sink is left untouched: reload
    /// resets the logical state only.
    ///
    /// The caller enumerates the directory and passes every path it
    /// found; entries it could not read are simply not in the list.
    pub fn load_songs_from_dir(&mut self, entries: &Vec<String>)
        ensures
            tracks_match(
                final(self).songs@,
                sort_by_name(kept_paths(views_of(entries@), views_of(old(self).allowed_exts@))),
            ),
            final(self).current_index is None,
            !final(self).playing,
            final(self).sink_paused == old(self).sink_paused,
            final(self).allowed_exts == old(self).allowed_exts,
    {
        let tracks = build_playlist(entries, &self.allowed_exts);
        self.songs = tracks;
        self.current_index = None;
        self.playing = false;
    }

    /// Starts the track at `index`, if there is one and the sink takes
    /// it. An out-of-range index is a no-op, and when the sink refuses
    /// the file (missing, undecodable) the state is left exactly as it
    /// was: no track change occurs.
    pub fn play_by_index<S: AudioSink>(&mut self, sink: &mut S, index: usize) -> (started: bool)
        ensures
            index >= old(self).songs@.len() ==> !started,
            !started ==> *final(self) == *old(self),
            started ==> index < old(self).songs@.len() && *final(self) == (AudioPlayer {
                current_index: Some(index),
                playing: true,
                sink_paused: false,
                ..*old(self)
            }),
    {
        if index < self.songs.len() {
            let ok = sink.load_and_play(self.songs[index].path.as_str());
            if ok {
                self.current_index = Some(index);
                self.playing = true;
                self.sink_paused = false;
                return true;
            }
        }
        false
    }

    /// Pauses a playing sink or resumes a paused one, and records the
    /// new logical play flag. A player with an empty playlist has never
    /// been given anything to play, so this is a no-op there.
    pub fn toggle_play_pause<S: AudioSink>(&mut self, sink: &mut S)
        ensures
            old(self).songs@.len() == 0 ==> *final(self) == *old(self),
            old(self).songs@.len() > 0 ==> *final(self) == (AudioPlayer {
                playing: old(self).sink_paused,
                sink_paused: !old(self).sink_paused,
                ..*old(self)
            }),
    {
        if self.songs.len() == 0 {
            return;
        }
        if self.sink_paused {
            sink.resume();
            self.sink_paused = false;
            self.playing = true;
        } else {
            sink.pause();
            self.sink_paused = true;
            self.playing = false;
        }
    }

    /// Moves to the next track, circularly, and starts it; selects the
    /// first track when nothing is selected. A no-op on an empty
    /// playlist, and when the sink refuses the file the state is left
    /// as it was.
    pub fn next<S: AudioSink>(&mut self, sink: &mut S) -> (started: bool)
        ensures
            old(self).songs@.len() == 0 ==> !started,
            !started ==> *final(self) == *old(self),
            started ==> old(self).songs@.len() > 0 && *final(self) == old(self).after_play(
                old(self).next_target(),
            ),
    {
        let len: usize = self.songs.len();
        if len == 0 {
            return false;
        }
        let target: usize = match self.current_index {
            Some(i) => if i < len {
                if i + 1 < len {
                    i + 1
                } else {
                    0
                }
            } else {
                0
            },
            None => 0,
        };
        self.play_by_index(sink, target)
    }

    /// Moves to the previous track, circularly, and starts it; selects
    /// the first track when nothing is selected. A no-op on an empty
    /// playlist, and when the sink refuses the file the state is left
    /// as it was.
    pub fn previous<S: AudioSink>(&mut self, sink: &mut S) -> (started: bool)
        ensures
            old(self).songs@.len() == 0 ==> !started,
            !started ==> *final(self) == *old(self),
            started ==> old(self).songs@.len() > 0 && *final(self) == old(self).after_play(
                old(self).prev_target(),
            ),
    {
        let len: usize = self.songs.len();
        if len == 0 {
            return false;
        }
        let target: usize = match self.current_index {
            Some(i) => if i < len {
                if i == 0 {
                    len - 1
                } else {
                    i - 1
                }
            } else {
                0
            },
            None => 0,
        };
        self.play_by_index(sink, target)
    }

    /// The advance monitor's decision: a tick advances exactly when the
    /// sink reports that it ran out, playback is logically on, and the
    /// playlist is non-empty.
    pub fn should_advance(&self, sink_empty: bool) -> (r: bool)
        ensures
            r == (sink_empty && self.playing && self.songs@.len() > 0),
    {
        sink_empty && self.playing && self.songs.len() > 0
    }

    /// One tick of the advance monitor: asks the sink whether it ran
    /// out and, on a qualifying tick (playing, non-empty playlist, sink
    /// empty), advances to the next track, once. Returns the observed
    /// sink answer and whether the advance happened: a tick that saw a
    /// sink still holding audio, or an idle player, changes nothing,
    /// and an advance only ever follows an observed empty sink. When
    /// the sink refuses the next track's file, the player is likewise
    /// left untouched.
    pub fn monitor_tick<S: AudioSink>(&mut self, sink: &mut S) -> (r: (bool, bool))
        ensures
            !r.0 || !old(self).playing || old(self).songs@.len() == 0 ==> !r.1,
            !r.1 ==> *final(self) == *old(self),
            r.1 ==> r.0 && old(self).playing && old(self).songs@.len() > 0 && *final(self) == old(
                self,
            ).after_play(old(self).next_target()),
    {
        let empty = sink.is_empty();
        if self.should_advance(empty) {
            let advanced = self.next(sink);
            (empty, advanced)
        } else {
            (empty, false)
        }
    }

    /// A copy of the playlist, in order.
    pub fn get_songs(&self) -> (r: Vec<Track>)
        ensures
            r@ == self.songs@,
    {
        let mut r: Vec<Track> = Vec::new();
        let mut i: usize = 0;
        while i < self.songs.len()
            invariant
                i <= self.songs@.len(),
                r@.len() == i,
                forall|j: int| 0 <= j < i ==> r@[j] == self.songs@[j],
            decreases self.songs@.len() - i,
        {
            r.push(Track { ord: self.songs[i].ord, path: self.songs[i].path.clone() });
            i = i + 1;
        }
        proof {
            assert(r@ =~= self.songs@);
        }
        r
    }

    /// Whether playback is logically on.
    pub fn is_playing(&self) -> (r: bool)
        ensures
            r == self.playing,
    {
        self.playing
    }

    /// The selected track, or `None` when nothing is selected or the
    /// recorded index no longer points into the playlist.
    pub fn get_current_song(&self) -> (r: Option<Track>)
        ensures
            r == self.spec_current_track(),
    {
        match self.current_index {
            Some(i) => if i < self.songs.len() {
                Some(Track { ord: self.songs[i].ord, path: self.songs[i].path.clone() })
            } else {
                None
            },
            None => None,
        }
    }
}

impl Default for AudioPlayer {
    /// The same state as [`AudioPlayer::new`].
    fn default() -> (p: Self)
        ensures
            p.songs@.len() == 0,
            p.current_index is None,
            !p.playing,
            !p.sink_paused,
            views_of(p.allowed_exts@) =~= default_allowed(),
    {
        AudioPlayer::new()
    }
}

/// The state after `n` successful `next` calls.
pub open spec fn iter_next(s: AudioPlayer, n: nat) -> AudioPlayer
    decreases n,
{
    if n == 0 {
        s
    } else {
        let t = iter_next(s, (n - 1) as nat);
        t.after_play(t.next_target())
    }
}

/// The state after `n` successful `previous` calls.
pub open spec fn iter_prev(s: AudioPlayer, n: nat) -> AudioPlayer
    decreases n,
{
    if n == 0 {
        s
    } else {
        let t = iter_prev(s, (n - 1) as nat);
        t.after_play(t.prev_target())
    }
}

proof fn lemma_iter_next_index(s: AudioPlayer, k: int, j: nat)
    requires
        0 <= k < s.songs@.len(),
        s.songs@.len() <= usize::MAX,
        s.current_index == Some(k as usize),
        j <= s.songs@.len(),
    ensures
        iter_next(s, j).songs == s.songs,
        iter_next(s, j).sel() == if k + j < s.songs@.len() {
            k + j
        } else {
            k + j - s.songs@.len()
        },
    decreases j,
{
    if j > 0 {
        lemma_iter_next_index(s, k, (j - 1) as nat);
    }
}

proof fn lemma_iter_prev_index(s: AudioPlayer, k: int, j: nat)
    requires
        0 <= k < s.songs@.len(),
        s.songs@.len() <= usize::MAX,
        s.current_index == Some(k as usize),
        j <= s.songs@.len(),
    ensures
        iter_prev(s, j).songs == s.songs,
        iter_prev(s, j).sel() == if k - j >= 0 {
            k - j
        } else {
            k - j + s.songs@.len()
        },
    decreases j,
{
    if j > 0 {
        lemma_iter_prev_index(s, k, (j - 1) as nat);
    }
}

/// Circularity of `next`: from a selection on a playlist of length N,
/// N successful `next` steps lead back to the same selection.
pub proof fn lemma_next_circular(s: AudioPlayer, k: usize)
    requires
        s.songs@.len() > 0,
        s.songs@.len() <= usize::MAX,
        (k as int) < s.songs@.len(),
        s.current_index == Some(k),
    ensures
        iter_next(s, s.songs@.len() as nat).songs == s.songs,
        iter_next(s, s.songs@.len() as nat).current_index == Some(k),
{
    lemma_iter_next_index(s, k as int, s.songs@.len() as nat);
}

/// Circularity of `previous`: from a selection on a playlist of length
/// N, N successful `previous` steps lead back to the same selection.
pub proof fn lemma_previous_circular(s: AudioPlayer, k: usize)
    requires
        s.songs@.len() > 0,
        s.songs@.len() <= usize::MAX,
        (k as int) < s.songs@.len(),
        s.current_index == Some(k),
    ensures
        iter_prev(s, s.songs@.len() as nat).songs == s.songs,
        iter_prev(s, s.songs@.len() as nat).current_index == Some(k),
{
    lemma_iter_prev_index(s, k as int, s.songs@.len() as nat);
}

} // verus!
