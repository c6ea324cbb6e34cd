use vstd::prelude::*;
use std::collections::HashMap;
use crate::types::{trunc_div, u32_byte, u64_byte, u32_byte_at, u64_byte_at};

verus! {

broadcast use vstd::std_specs::hash::group_hash_axioms;

/// Number of instrument presets.
pub const INSTRUMENT_PRESETS: u32 = 12;
/// Number of layers a nebula's music is made of.
pub const MAX_LAYERS_PER_NEBULA: u32 = 8;
/// Size of a music seed in bytes.
pub const SEED_SIZE: u32 = 32;

/// Errors of the audio seed generator.
#[derive(Clone, Copy, Debug, PartialEq, Eq, Structural)]
pub enum AudioError {
    InvalidLayer,
    InvalidNebulaId,
    SeedNotFound,
    InvalidPreset,
}

/// Synthesis parameters of one instrument layer.
#[derive(Clone, Copy, Debug, PartialEq, Eq, Structural)]
pub struct InstrumentParams {
    pub preset_id: u32,
    /// Base frequency in Hz
    pub frequency: u32,
    /// Volume level 0-100
    pub amplitude: u32,
    /// 0=sine, 1=square, 2=triangle, 3=sawtooth
    pub waveform: u32,
    /// Attack time in ms
    pub attack: u32,
    /// Decay time in ms
    pub decay: u32,
    /// Sustain level 0-100
    pub sustain: u32,
    /// Release time in ms
    pub release: u32,
}

/// The seed generated for a nebula.
#[derive(Clone, Copy, Debug)]
pub struct MusicSeed {
    pub nebula_id: u64,
    pub seed: [u8; 32],
    pub generated_at: u64,
}

/// Stored presets (none, or the whole catalogue) and the seed of each nebula.
pub struct AudioStore {
    presets: Vec<InstrumentParams>,
    seeds: HashMap<u64, [u8; 32]>,
}

/// An instrument preset by its fields.
pub open spec fn ip(
    preset_id: u32,
    frequency: u32,
    amplitude: u32,
    waveform: u32,
    attack: u32,
    decay: u32,
    sustain: u32,
    release: u32,
) -> InstrumentParams {
    InstrumentParams { preset_id, frequency, amplitude, waveform, attack, decay, sustain, release }
}

/// The default catalogue of instrument presets, indexed by preset id.
#[verifier::opaque]
pub open spec fn preset_table() -> Seq<InstrumentParams> {
    seq![
        ip(0, 55, 70, 0, 100, 200, 60, 300),
        ip(1, 220, 50, 0, 500, 300, 70, 800),
        ip(2, 440, 80, 1, 50, 100, 50, 200),
        ip(3, 330, 60, 2, 300, 400, 80, 600),
        ip(4, 110, 65, 1, 20, 50, 40, 100),
        ip(5, 82, 55, 3, 1000, 500, 90, 1500),
        ip(6, 880, 75, 0, 10, 150, 30, 400),
        ip(7, 40, 85, 3, 200, 300, 70, 500),
        ip(8, 1760, 45, 2, 150, 200, 50, 350),
        ip(9, 660, 70, 1, 30, 80, 60, 150),
        ip(10, 1320, 65, 0, 100, 250, 75, 600),
        ip(11, 165, 50, 2, 400, 600, 40, 1000),
    ]
}

/// The preset stored under `id`, if any.
pub open spec fn preset_lookup(presets: Seq<InstrumentParams>, id: u32) -> Option<InstrumentParams> {
    if id < INSTRUMENT_PRESETS && (id as int) < presets.len() {
        Some(presets[id as int])
    } else {
        None
    }
}

/// `x` held within `lo..=hi`.
pub open spec fn clamp(x: int, lo: int, hi: int) -> int {
    if x < lo {
        lo
    } else if x > hi {
        hi
    } else {
        x
    }
}

/// `value` varied by up to ±20% according to the byte `m` (128 = no change),
/// then held within `lo..=hi`.
pub open spec fn modulate(value: int, m: int, lo: int, hi: int) -> int {
    clamp(value + trunc_div((m - 128) * value, 640), lo, hi)
}

/// The parameters of `layer` built from preset `p` and the seed bytes: the
/// frequency is varied by byte `layer + 8`, the amplitude by byte `layer + 16`.
pub open spec fn layer_params(p: InstrumentParams, seed: Seq<u8>, layer: int) -> InstrumentParams {
    InstrumentParams {
        preset_id: p.preset_id,
        frequency: modulate(p.frequency as int, seed[layer + 8] as int, 20, 2000) as u32,
        amplitude: modulate(p.amplitude as int, seed[layer + 16] as int, 10, 100) as u32,
        waveform: p.waveform,
        attack: p.attack,
        decay: p.decay,
        sustain: p.sustain,
        release: p.release,
    }
}

/// What `get_instrument_layer` answers for `seed` and `layer`: the preset is
/// seed byte `layer` modulo the number of presets.
pub open spec fn layer_result(presets: Seq<InstrumentParams>, seed: Seq<u8>, layer: u32) -> Result<InstrumentParams, AudioError> {
    if layer >= MAX_LAYERS_PER_NEBULA {
        Err(AudioError::InvalidLayer)
    } else {
        match preset_lookup(presets, (seed[layer as int] as u32) % INSTRUMENT_PRESETS) {
            None => Err(AudioError::InvalidPreset),
            Some(p) => Ok(layer_params(p, seed, layer as int)),
        }
    }
}

/// The 32 seed bytes of a nebula: its id, the ledger sequence (repeated), the
/// timestamp, then the three XOR-ed together, each as big-endian bytes.
pub open spec fn music_seed_bytes(nebula_id: u64, sequence: u32, timestamp: u64) -> Seq<u8> {
    Seq::new(
        32,
        |k: int|
            if k < 8 {
                u64_byte(nebula_id, k)
            } else if k < 16 {
                u32_byte(sequence, (k - 8) % 4)
            } else if k < 24 {
                u64_byte(timestamp, k - 16)
            } else {
                u64_byte(nebula_id, k - 24) ^ u32_byte(sequence, (k - 24) % 4) ^ u64_byte(
                    timestamp,
                    k - 24,
                )
            },
    )
}

impl AudioStore {
    #[verifier::type_invariant]
    spec fn wf(&self) -> bool {
        &&& (self.presets@.len() == 0 || self.presets@ == preset_table())
        &&& forall|i: int| 0 <= i < self.presets@.len() ==> #[trigger] self.presets@[i].frequency <= 2000
            && self.presets@[i].amplitude <= 100
    }

    /// The stored presets: none, or the default catalogue.
    pub closed spec fn presets(&self) -> Seq<InstrumentParams> {
        self.presets@
    }

    /// The stored seed of each nebula.
    pub closed spec fn seeds(&self) -> Map<u64, [u8; 32]> {
        self.seeds@
    }

    /// An empty store: no presets, no seeds.
    pub fn new() -> (s: AudioStore)
        ensures
            s.presets() == Seq::<InstrumentParams>::empty(),
            s.seeds() == Map::<u64, [u8; 32]>::empty(),
    {
        AudioStore { presets: Vec::new(), seeds: HashMap::new() }
    }
}

/// Store the default instrument presets.
pub fn initialize_presets(store: &mut AudioStore)
    ensures
        final(store).presets() == preset_table(),
        final(store).seeds() == old(store).seeds(),
{
    let mut v: Vec<InstrumentParams> = Vec::new();
    // Deep Bass
    v.push(InstrumentParams { preset_id: 0, frequency: 55, amplitude: 70, waveform: 0, attack: 100, decay: 200, sustain: 60, release: 300 });
    // Ambient Pad
    v.push(InstrumentParams { preset_id: 1, frequency: 220, amplitude: 50, waveform: 0, attack: 500, decay: 300, sustain: 70, release: 800 });
    // Cosmic Lead
    v.push(InstrumentParams { preset_id: 2, frequency: 440, amplitude: 80, waveform: 1, attack: 50, decay: 100, sustain: 50, release: 200 });
    // Ethereal Strings
    v.push(InstrumentParams { preset_id: 3, frequency: 330, amplitude: 60, waveform: 2, attack: 300, decay: 400, sustain: 80, release: 600 });
    // Pulsing Synth
    v.push(InstrumentParams { preset_id: 4, frequency: 110, amplitude: 65, waveform: 1, attack: 20, decay: 50, sustain: 40, release: 100 });
    // Nebula Drone
    v.push(InstrumentParams { preset_id: 5, frequency: 82, amplitude: 55, waveform: 3, attack: 1000, decay: 500, sustain: 90, release: 1500 });
    // Stellar Chime
    v.push(InstrumentParams { preset_id: 6, frequency: 880, amplitude: 75, waveform: 0, attack: 10, decay: 150, sustain: 30, release: 400 });
    // Dark Matter Rumble
    v.push(InstrumentParams { preset_id: 7, frequency: 40, amplitude: 85, waveform: 3, attack: 200, decay: 300, sustain: 70, release: 500 });
    // Plasma Whisper
    v.push(InstrumentParams { preset_id: 8, frequency: 1760, amplitude: 45, waveform: 2, attack: 150, decay: 200, sustain: 50, release: 350 });
    // Ion Storm
    v.push(InstrumentParams { preset_id: 9, frequency: 660, amplitude: 70, waveform: 1, attack: 30, decay: 80, sustain: 60, release: 150 });
    // Crystal Resonance
    v.push(InstrumentParams { preset_id: 10, frequency: 1320, amplitude: 65, waveform: 0, attack: 100, decay: 250, sustain: 75, release: 600 });
    // Void Echo
    v.push(InstrumentParams { preset_id: 11, frequency: 165, amplitude: 50, waveform: 2, attack: 400, decay: 600, sustain: 40, release: 1000 });
    proof {
        reveal(preset_table);
        assert(v@ =~= preset_table());
    }
    let mut presets: Vec<InstrumentParams> = v;
    std::mem::swap(&mut presets, &mut store.presets);
}

/// Generate the deterministic music seed of a nebula from its id and the
/// ledger's sequence and timestamp, and store it.
pub fn generate_music_seed(store: &mut AudioStore, nebula_id: u64, sequence: u32, timestamp: u64) -> (r: Result<MusicSeed, AudioError>)
    ensures
        nebula_id == 0 ==> r == Err::<MusicSeed, AudioError>(AudioError::InvalidNebulaId)
            && final(store).seeds() == old(store).seeds(),
        nebula_id != 0 ==> r is Ok
            && r->Ok_0.nebula_id == nebula_id
            && r->Ok_0.seed@ == music_seed_bytes(nebula_id, sequence, timestamp)
            && r->Ok_0.generated_at == timestamp
            && final(store).seeds() == old(store).seeds().insert(nebula_id, r->Ok_0.seed),
        final(store).presets() == old(store).presets(),
{
    proof { use_type_invariant(&*store); }
    if nebula_id == 0 {
        return Err(AudioError::InvalidNebulaId);
    }
    let mut seed_data: [u8; 32] = [0u8; 32];
    let mut i: usize = 0;
    while i < 8
        invariant
            0 <= i <= 8,
            forall|k: int| 0 <= k < 32 && (k % 8) < i ==> #[trigger] seed_data@[k]
                == music_seed_bytes(nebula_id, sequence, timestamp)[k],
        decreases 8 - i,
    {
        let nb = u64_byte_at(nebula_id, i);
        let sb = u32_byte_at(sequence, i % 4);
        let tb = u64_byte_at(timestamp, i);
        seed_data[i] = nb;
        seed_data[i + 8] = sb;
        seed_data[i + 16] = tb;
        seed_data[i + 24] = nb ^ sb ^ tb;
        i += 1;
    }
    proof {
        assert(seed_data@ =~= music_seed_bytes(nebula_id, sequence, timestamp));
    }
    let music_seed = MusicSeed { nebula_id, seed: seed_data, generated_at: timestamp };
    let mut seeds: HashMap<u64, [u8; 32]> = HashMap::new();
    std::mem::swap(&mut seeds, &mut store.seeds);
    seeds.insert(nebula_id, seed_data);
    store.seeds = seeds;
    Ok(music_seed)
}

/// Instrument parameters of one layer of the music built from `seed`.
pub fn get_instrument_layer(store: &AudioStore, seed: &[u8; 32], layer: u32) -> (r: Result<InstrumentParams, AudioError>)
    ensures
        r == layer_result(store.presets(), seed@, layer),
{
    proof { use_type_invariant(store); }
    if layer >= MAX_LAYERS_PER_NEBULA {
        return Err(AudioError::InvalidLayer);
    }
    let seed_byte = seed[(layer % SEED_SIZE) as usize];
    let preset_id = (seed_byte as u32) % INSTRUMENT_PRESETS;
    if preset_id as usize >= store.presets.len() {
        return Err(AudioError::InvalidPreset);
    }
    let mut params = store.presets[preset_id as usize];
    let mod_byte1 = seed[((layer + 8) % SEED_SIZE) as usize];
    let mod_byte2 = seed[((layer + 16) % SEED_SIZE) as usize];
    proof {
        assert(store.presets@[preset_id as int].frequency <= 2000);
    }
    params.frequency = modulated(params.frequency, mod_byte1, 20, 2000);
    params.amplitude = modulated(params.amplitude, mod_byte2, 10, 100);
    Ok(params)
}

/// `value` varied by the byte `m` and held within `lo..=hi`.
fn modulated(value: u32, m: u8, lo: i32, hi: i32) -> (r: u32)
    requires
        value <= 2000,
        0 <= lo <= hi,
    ensures
        r == modulate(value as int, m as int, lo as int, hi as int),
{
    let v = value as i32;
    let d = m as i32 - 128;
    proof {
        assert(-128 * 2000 <= d * v <= 127 * 2000) by (nonlinear_arith)
            requires -128 <= d <= 127, 0 <= v <= 2000;
    }
    let x = v + (d * v) / 640;
    (if x < lo { lo } else if x > hi { hi } else { x }) as u32
}

/// All eight layers of a nebula's stored seed.
pub fn get_all_layers(store: &AudioStore, nebula_id: u64) -> (r: Result<Vec<InstrumentParams>, AudioError>)
    ensures
        !store.seeds().dom().contains(nebula_id) ==> r == Err::<Vec<InstrumentParams>, AudioError>(AudioError::SeedNotFound),
        store.seeds().dom().contains(nebula_id) ==> {
            let seed = store.seeds()[nebula_id]@;
            if forall|l: u32| l < MAX_LAYERS_PER_NEBULA ==> #[trigger] layer_result(store.presets(), seed, l) is Ok {
                &&& r is Ok
                &&& r->Ok_0@.len() == MAX_LAYERS_PER_NEBULA
                &&& forall|l: int| 0 <= l < MAX_LAYERS_PER_NEBULA ==>
                    Ok::<InstrumentParams, AudioError>(#[trigger] r->Ok_0@[l]) == layer_result(store.presets(), seed, l as u32)
            } else {
                r == Err::<Vec<InstrumentParams>, AudioError>(AudioError::InvalidPreset)
            }
        },
{
    let seed = match store.seeds.get(&nebula_id) {
        Some(s) => *s,
        None => return Err(AudioError::SeedNotFound),
    };
    let ghost presets = store.presets();
    let mut layers: Vec<InstrumentParams> = Vec::new();
    let mut layer: u32 = 0;
    while layer < MAX_LAYERS_PER_NEBULA
        invariant
            0 <= layer <= MAX_LAYERS_PER_NEBULA,
            presets == store.presets(),
            seed@ == store.seeds()[nebula_id]@,
            store.seeds().dom().contains(nebula_id),
            layers@.len() == layer,
            forall|l: int| 0 <= l < layer ==>
                Ok::<InstrumentParams, AudioError>(#[trigger] layers@[l]) == layer_result(presets, seed@, l as u32),
        decreases MAX_LAYERS_PER_NEBULA - layer,
    {
        match get_instrument_layer(store, &seed, layer) {
            Ok(p) => layers.push(p),
            Err(e) => {
                proof {
                    assert(layer_result(presets, seed@, layer) is Err);
                    lemma_layer_errors_are_preset(presets, seed@, layer);
                }
                return Err(e);
            },
        }
        layer += 1;
    }
    proof {
        assert forall|l: u32| l < MAX_LAYERS_PER_NEBULA implies #[trigger] layer_result(presets, seed@, l) is Ok by {
            assert(Ok::<InstrumentParams, AudioError>(layers@[l as int]) == layer_result(presets, seed@, l));
        }
    }
    Ok(layers)
}

/// The stored seed of a nebula.
pub fn get_nebula_seed(store: &AudioStore, nebula_id: u64) -> (r: Option<[u8; 32]>)
    ensures
        r == (if store.seeds().dom().contains(nebula_id) {
            Some(store.seeds()[nebula_id])
        } else {
            None::<[u8; 32]>
        }),
{
    match store.seeds.get(&nebula_id) {
        Some(s) => Some(*s),
        None => None,
    }
}

/// An instrument preset by id.
pub fn get_preset(store: &AudioStore, preset_id: u32) -> (r: Result<InstrumentParams, AudioError>)
    ensures
        r == (match preset_lookup(store.presets(), preset_id) {
            Some(p) => Ok::<InstrumentParams, AudioError>(p),
            None => Err(AudioError::InvalidPreset),
        }),
{
    if preset_id >= INSTRUMENT_PRESETS {
        return Err(AudioError::InvalidPreset);
    }
    if preset_id as usize >= store.presets.len() {
        return Err(AudioError::InvalidPreset);
    }
    Ok(store.presets[preset_id as usize])
}

/// Below the layer limit the only way a layer fails is a missing preset.
proof fn lemma_layer_errors_are_preset(presets: Seq<InstrumentParams>, seed: Seq<u8>, layer: u32)
    requires
        layer < MAX_LAYERS_PER_NEBULA,
        layer_result(presets, seed, layer) is Err,
    ensures
        layer_result(presets, seed, layer) == Err::<InstrumentParams, AudioError>(AudioError::InvalidPreset),
{
}

/// Law of the layers: whatever the preset and the seed, a layer's frequency
/// stays within 20..=2000 Hz and its amplitude within 10..=100.
pub proof fn lemma_layer_within_bounds(p: InstrumentParams, seed: Seq<u8>, layer: int)
    requires
        0 <= layer < MAX_LAYERS_PER_NEBULA,
        seed.len() == SEED_SIZE,
    ensures
        20 <= layer_params(p, seed, layer).frequency <= 2000,
        10 <= layer_params(p, seed, layer).amplitude <= 100,
{
}

} // verus!
