//! Sounds: which audio the engine plays, and the bookkeeping of the sounds.
use vstd::prelude::*;
use audrey::read::Reader;
use std::io::Cursor;
use std::collections::HashMap;

verus! {

/// Audio that audrey can open, held as its bytes, with the sample rate and the
/// channel count its description gives.
pub struct SoundData {
    pub bytes: Vec<u8>,
    pub sample_rate: u32,
    pub channels: u32,
}

/// Channels of the audio the engine outputs.
pub const CHANNELS: u32 = 2;
/// Sample rate, in Hertz, of the audio the engine plays.
pub const RATE: u32 = 44100;
pub const MONO: u32 = 1;
pub const STEREO: u32 = 2;

/// The sample rate and the channel count of the audio that `bytes` holds, when
/// audrey, with its WAV, FLAC and Ogg Vorbis readers, recognises one of these
/// formats there.
pub uninterp spec fn audio_header(bytes: Seq<u8>) -> Option<(u32, u32)>;

/// Opens the audio held by `bytes` with audrey's `Reader::new`, which this crate
/// builds with the WAV, FLAC and Ogg Vorbis readers only, and reads its sample
/// rate and channel count from its description. The contract claims that
/// the reader opens exactly when `audio_header` names a header, and that the
/// description gives that header.
#[verifier::external_body]
fn open_audio(bytes: &Vec<u8>) -> (r: Option<(u32, u32)>)
    ensures
        r == audio_header(bytes@),
{
    match Reader::new(Cursor::new(bytes.as_slice())) {
        Ok(reader) => {
            let description = reader.description();
            Some((description.sample_rate(), description.channel_count()))
        },
        Err(_) => None,
    }
}

/// Audio of sample rate `rate` and of `channels` channels can be played: it is
/// sampled at the engine's rate, in mono or stereo.
pub open spec fn supported_audio(rate: u32, channels: u32) -> bool {
    rate == RATE && (channels == MONO || channels == STEREO)
}

/// Whether audio of sample rate `rate` and of `channels` channels can be played.
pub fn audio_format_supported(rate: u32, channels: u32) -> (r: bool)
    ensures
        r == supported_audio(rate, channels),
{
    rate == RATE && (channels == MONO || channels == STEREO)
}

/// Parses audio: succeeds when audrey opens it and it can be played, and then
/// gives the audio with its sample rate and channel count.
pub fn parse_ogg(bytes: Vec<u8>) -> (r: Result<SoundData, ()>)
    ensures
        r is Ok <==> (audio_header(bytes@) matches Some((rate, channels)) && supported_audio(rate, channels)),
        r matches Ok(d) ==> d.bytes@ == bytes@ && audio_header(bytes@) == Some((d.sample_rate, d.channels)),
{
    match open_audio(&bytes) {
        Some((rate, channels)) => {
            if audio_format_supported(rate, channels) {
                Ok(SoundData { bytes, sample_rate: rate, channels })
            } else {
                Err(())
            }
        },
        None => Err(()),
    }
}

/// Hands out the identifiers of the sounds.
pub struct AudioContext {
    pub counter: usize,
}

impl AudioContext {
    /// No sound yet.
    pub fn new() -> (r: AudioContext)
        ensures
            r.counter == 0,
    {
        AudioContext { counter: 0 }
    }

    /// A new sound identifier: the identifiers are handed out in increasing order.
    pub fn next_id(&mut self) -> (id: usize)
        requires
            old(self).counter < usize::MAX,
        ensures
            id == old(self).counter,
            final(self).counter == old(self).counter + 1,
    {
        let res = self.counter;
        self.counter = self.counter + 1;
        res
    }
}

/// What the game asks of the audio: sounds to load, to play, to stop.
pub enum AudioEvent<S, C> {
    AddSound { sound_id: usize, data: S },
    PlaySound { sound_id: usize, config: C },
    StopSound { sound_id: usize },
    SystemReady,
}

/// A sound being played: how, and the next sample to play.
pub struct SoundState<C> {
    pub config: C,
    pub sample_cursor: usize,
}

/// The audio of the game: the sounds to load, those being played, and whether
/// the audio system is ready. The samples themselves are with the audio device.
pub struct AudioController<S, C> {
    pub sounds: HashMap<usize, S>,
    pub currently_played_sounds: HashMap<usize, SoundState<C>>,
    pub system_is_ready: bool,
}

impl<S, C> AudioController<S, C> {
    /// No sound, and a system not ready yet.
    pub fn new() -> (r: Self)
        ensures
            r.sounds@ == Map::<usize, S>::empty(),
            r.currently_played_sounds@ == Map::<usize, SoundState<C>>::empty(),
            !r.system_is_ready,
    {
        AudioController { sounds: HashMap::new(), currently_played_sounds: HashMap::new(), system_is_ready: false }
    }

    /// Handles the message the game sent, if any: a sound to load, to play from
    /// its start, to stop, or the audio system being ready.
    pub fn handle_events(&mut self, message: Option<AudioEvent<S, C>>)
        ensures
            match message {
                None => final(self).sounds@ == old(self).sounds@ && final(self).currently_played_sounds@
                    == old(self).currently_played_sounds@ && final(self).system_is_ready == old(self).system_is_ready,
                Some(AudioEvent::SystemReady) => final(self).sounds@ == old(self).sounds@
                    && final(self).currently_played_sounds@ == old(self).currently_played_sounds@
                    && final(self).system_is_ready,
                Some(AudioEvent::AddSound { sound_id, data }) => final(self).sounds@ == old(self).sounds@.insert(
                    sound_id,
                    data,
                ) && final(self).currently_played_sounds@ == old(self).currently_played_sounds@
                    && final(self).system_is_ready == old(self).system_is_ready,
                Some(AudioEvent::PlaySound { sound_id, config }) => final(self).sounds@ == old(self).sounds@
                    && final(self).currently_played_sounds@ == old(self).currently_played_sounds@.insert(
                    sound_id,
                    SoundState { config, sample_cursor: 0 },
                ) && final(self).system_is_ready == old(self).system_is_ready,
                Some(AudioEvent::StopSound { sound_id }) => final(self).sounds@ == old(self).sounds@
                    && final(self).currently_played_sounds@ == old(self).currently_played_sounds@.remove(sound_id)
                    && final(self).system_is_ready == old(self).system_is_ready,
            },
    {
        broadcast use vstd::std_specs::hash::group_hash_axioms;
        match message {
            Some(AudioEvent::SystemReady) => {
                self.system_is_ready = true;
            },
            Some(AudioEvent::AddSound { sound_id, data }) => {
                self.sounds.insert(sound_id, data);
            },
            Some(AudioEvent::PlaySound { sound_id, config }) => {
                self.currently_played_sounds.insert(sound_id, SoundState { config, sample_cursor: 0 });
            },
            Some(AudioEvent::StopSound { sound_id }) => {
                self.currently_played_sounds.remove(&sound_id);
            },
            None => {},
        }
    }
}

/// The sounds being played once a frame played: each sound whose samples are
/// loaded, `lengths` of them, moves its cursor on by one and stops after its
/// last sample; a sound not loaded yet waits.
pub open spec fn frame_played<C>(played: Map<usize, SoundState<C>>, lengths: Map<usize, usize>) -> Map<usize, SoundState<C>> {
    Map::new(
        |k: usize| played.contains_key(k) && (!lengths.contains_key(k) || played[k].sample_cursor + 1 < lengths[k]),
        |k: usize|
            if lengths.contains_key(k) {
                SoundState { config: played[k].config, sample_cursor: (played[k].sample_cursor + 1) as usize }
            } else {
                played[k]
            },
    )
}

/// The samples a frame plays, each as a sound and the position of its sample:
/// one for each sound played whose samples are loaded.
pub open spec fn frame_samples<C>(played: Map<usize, SoundState<C>>, lengths: Map<usize, usize>) -> Set<(usize, usize)> {
    Set::new(
        |s: (usize, usize)| played.contains_key(s.0) && lengths.contains_key(s.0) && s.1 == played[s.0].sample_cursor,
    )
}

impl<S, C> AudioController<S, C> {
    /// Plays one frame, once the audio system is ready: returns the samples to
    /// mix, as a sound and the position of its sample, in no particular order,
    /// and moves the sounds on.
    pub fn next_frame_samples(&mut self, lengths: &HashMap<usize, usize>) -> (samples: Vec<(usize, usize)>)
        requires
            old(self).system_is_ready ==> forall|k: usize|
                #[trigger] old(self).currently_played_sounds@.contains_key(k) && lengths@.contains_key(k)
                    ==> old(self).currently_played_sounds@[k].sample_cursor < lengths@[k],
        ensures
            final(self).sounds == old(self).sounds,
            final(self).system_is_ready == old(self).system_is_ready,
            !old(self).system_is_ready ==> samples@.len() == 0 && final(self).currently_played_sounds@
                == old(self).currently_played_sounds@,
            old(self).system_is_ready ==> final(self).currently_played_sounds@ == frame_played(
                old(self).currently_played_sounds@,
                lengths@,
            ),
            old(self).system_is_ready ==> samples@.no_duplicates() && samples@.to_set() == frame_samples(
                old(self).currently_played_sounds@,
                lengths@,
            ),
    {
        broadcast use vstd::std_specs::hash::group_hash_axioms;
        let mut samples: Vec<(usize, usize)> = Vec::new();
        if !self.system_is_ready {
            return samples;
        }
        let ghost p0 = self.currently_played_sounds@;
        let ghost l = lengths@;
        let ids = key_list(&self.currently_played_sounds);
        let n = ids.len();
        let mut i: usize = 0;
        while i < n
            invariant
                n == ids@.len(),
                i <= n,
                ids@.to_set() == p0.dom(),
                ids@.no_duplicates(),
                l == lengths@,
                forall|k: usize|
                    0 <= k && p0.contains_key(k) && l.contains_key(k) ==> #[trigger] p0[k].sample_cursor < l[k],
                forall|k: usize|
                    #[trigger] ids@.take(i as int).contains(k) ==> (self.currently_played_sounds@.contains_key(k)
                        == frame_played(p0, l).contains_key(k) && (self.currently_played_sounds@.contains_key(k)
                        ==> self.currently_played_sounds@[k] == frame_played(p0, l)[k])),
                forall|k: usize|
                    !(#[trigger] ids@.take(i as int).contains(k)) ==> (self.currently_played_sounds@.contains_key(k)
                        == p0.contains_key(k) && (p0.contains_key(k) ==> self.currently_played_sounds@[k] == p0[k])),
                samples@.no_duplicates(),
                forall|s: (usize, usize)|
                    #[trigger] samples@.contains(s) <==> (ids@.take(i as int).contains(s.0) && frame_samples(p0, l).contains(s)),
                self.sounds == old(self).sounds,
                self.system_is_ready == old(self).system_is_ready,
            decreases n - i,
        {
            let id = ids[i];
            let ghost done = ids@.take(i as int);
            assert(ids@.take(i + 1) == done.push(id));
            assert(!done.contains(id)) by {
                if done.contains(id) {
                    let j = choose|j: int| 0 <= j < done.len() && done[j] == id;
                    assert(ids@[j] == ids@[i as int]);
                }
            }
            assert(p0.contains_key(id)) by {
                assert(ids@.contains(id));
            }
            let ghost before = self.currently_played_sounds@;
            let ghost old_samples = samples@;
            assert(ids@.take(i + 1)[i as int] == id);
            match self.currently_played_sounds.remove(&id) {
                Some(st) => {
                    match lengths.get(&id) {
                        Some(len) => {
                            assert(!samples@.contains((id, st.sample_cursor)));
                            samples.push((id, st.sample_cursor));
                            let next = st.sample_cursor + 1;
                            if next < *len {
                                self.currently_played_sounds.insert(id, SoundState { config: st.config, sample_cursor: next });
                            }
                        },
                        None => {
                            self.currently_played_sounds.insert(id, st);
                        },
                    }
                },
                None => {},
            }
            proof {
                let cur = self.currently_played_sounds@;
                let fp = frame_played(p0, l);
                assert forall|k: usize| k != id implies (#[trigger] cur.contains_key(k) == before.contains_key(k) && (
                before.contains_key(k) ==> cur[k] == before[k])) by {}
                assert(cur.contains_key(id) == fp.contains_key(id));
                assert(cur.contains_key(id) ==> cur[id] == fp[id]);
                assert forall|k: usize| #[trigger] ids@.take(i + 1).contains(k) implies (cur.contains_key(k) == fp.contains_key(k)
                    && (cur.contains_key(k) ==> cur[k] == fp[k])) by {
                    if k != id {
                        assert(done.contains(k));
                    }
                }
                assert(l.contains_key(id) ==> samples@ == old_samples.push((id, p0[id].sample_cursor)));
                assert(!l.contains_key(id) ==> samples@ == old_samples);
                assert forall|x: (usize, usize)| #[trigger] samples@.contains(x) <==> (ids@.take(i + 1).contains(x.0)
                    && frame_samples(p0, l).contains(x)) by {
                    if l.contains_key(id) {
                        vstd::seq_lib::lemma_seq_contains_after_push(old_samples, (id, p0[id].sample_cursor), x);
                    }
                    if x.0 != id {
                        assert(ids@.take(i + 1).contains(x.0) == done.contains(x.0));
                    }
                }
                assert forall|k: usize| !(#[trigger] ids@.take(i + 1).contains(k)) implies (cur.contains_key(k) == p0.contains_key(k)
                    && (p0.contains_key(k) ==> cur[k] == p0[k])) by {
                    assert(!done.contains(k));
                    assert(k != id);
                }
            }
            i = i + 1;
        }
        proof {
            lemma_take_whole::<usize>();
            assert(ids@.take(n as int) == ids@);
            assert(self.currently_played_sounds@ =~= frame_played(p0, l)) by {
                assert forall|k: usize| #[trigger] self.currently_played_sounds@.contains_key(k) == frame_played(p0, l).contains_key(k) by {
                    if !ids@.contains(k) {
                        assert(!p0.dom().contains(k));
                    }
                }
            }
            assert(samples@.to_set() =~= frame_samples(p0, l)) by {
                assert forall|s: (usize, usize)| #[trigger] frame_samples(p0, l).contains(s) implies ids@.contains(s.0) by {
                    assert(p0.dom().contains(s.0));
                }
            }
        }
        samples
    }
}

/// After a frame, each sound still played whose samples are loaded has its
/// cursor on one of its samples: the next frame can play it.
pub proof fn law_frame_keeps_cursors_in_range<C>(played: Map<usize, SoundState<C>>, lengths: Map<usize, usize>)
    requires
        forall|k: usize| #[trigger] played.contains_key(k) && lengths.contains_key(k) ==> played[k].sample_cursor < lengths[k],
    ensures
        forall|k: usize|
            #[trigger] frame_played(played, lengths).contains_key(k) && lengths.contains_key(k)
                ==> frame_played(played, lengths)[k].sample_cursor < lengths[k],
{
}

/// Identifiers handed out one after the other differ.
pub proof fn law_sound_ids_differ(c0: usize, id1: usize, c1: usize, id2: usize)
    requires
        id1 == c0,
        c1 == c0 + 1,
        id2 == c1,
    ensures
        id1 != id2,
{
}


/// The identifiers that `m` maps, each once, in the order the map yields them.
fn key_list<V>(m: &HashMap<usize, V>) -> (ks: Vec<usize>)
    ensures
        ks@.to_set() == m@.dom(),
        ks@.no_duplicates(),
{
    broadcast use vstd::std_specs::hash::group_hash_axioms;
    let mut ks: Vec<usize> = Vec::new();
    for k in it: m.keys()
        invariant
            ks@ == it.seq().unref().take(it.index() as int),
            it.seq().unref().to_set() == m@.dom(),
            it.seq().unref().no_duplicates(),
            it.index() <= it.seq().len(),
    {
        ks.push(*k);
    }
    proof {
        lemma_take_whole::<usize>();
    }
    ks
}

/// Taking as many elements as a sequence holds gives the sequence.
proof fn lemma_take_whole<A>()
    ensures
        forall|s: Seq<A>| #[trigger] s.take(s.len() as int) == s,
{
    assert forall|s: Seq<A>| #[trigger] s.take(s.len() as int) == s by {
        assert(s.take(s.len() as int) =~= s);
    }
}

} // verus!
