//! What the editor shows and offers about the routing graph: module lists,
//! linkable inputs, available and connected sources, labels.
use vstd::prelude::*;

use crate::routing::{
    compatible, data_types_compatible, has_source_from, DataType, Input, InputId, InputMeta,
    MixedSource, ModuleId, OUTPUT_MODULE_ID,
};
use crate::routing_graph::{depends_on, has_cycle, RoutingEntry};
use crate::seq_search::{
    first_index, found_at, lemma_filter_map_push, lemma_first_index_is, lemma_first_index_none,
};
use crate::stereo_sample::{SampleBits, StereoSample};

use crate::voices_handler::VoicesHandlerMetrics;

verus! {

/// The kinds of modules.
#[derive(Debug, Clone, Copy, PartialEq, Eq, Structural)]
pub enum ModuleType {
    Output,
    Amplifier,
    Envelope,
    Mixer,
    Oscillator,
    SpectralFilter,
    SpectralBlend,
    SpectralMixer,
    HarmonicEditor,
    ExternalParam,
    Lfo,
    WaveShaper,
    Expressions,
}

/// A cell position in the editor grid.
#[derive(Clone, Copy, Debug, PartialEq, Eq, Structural, Default)]
pub struct GridVec {
    pub x: i32,
    pub y: i32,
}

impl GridVec {
    /// The origin of the grid.
    pub fn default_position() -> (r: Self)
        ensures
            r == (GridVec { x: 0, y: 0 }),
    {
        GridVec { x: 0, y: 0 }
    }

    pub fn new(x: i32, y: i32) -> (r: Self)
        ensures
            r.x == x,
            r.y == y,
    {
        Self { x, y }
    }
}

impl core::ops::Add for GridVec {
    type Output = Self;

    fn add(self, rhs: Self) -> (r: Self) {
        Self { x: self.x + rhs.x, y: self.y + rhs.y }
    }
}

impl vstd::std_specs::ops::AddSpecImpl for GridVec {
    open spec fn obeys_add_spec() -> bool {
        true
    }

    open spec fn add_req(self, rhs: Self) -> bool {
        i32::MIN <= self.x + rhs.x <= i32::MAX && i32::MIN <= self.y + rhs.y <= i32::MAX
    }

    open spec fn add_spec(self, rhs: Self) -> Self {
        GridVec { x: (self.x + rhs.x) as i32, y: (self.y + rhs.y) as i32 }
    }
}

/// Editor settings of one module.
#[derive(Debug, Clone, Default)]
pub struct UiModuleConfig {
    pub id: ModuleId,
    pub label: String,
    pub position: GridVec,
}

/// Editor settings of all modules.
#[derive(Debug, Clone, Default)]
pub struct UiConfig {
    pub modules: Vec<UiModuleConfig>,
}

/// Voice counters shown in the editor.
#[derive(Debug, Clone, Copy, Default)]
pub struct VoicesStatus {
    pub waiting_notes: u8,
    pub playing: u8,
    pub releasing: u8,
    pub killing: u8,
}

impl VoicesStatus {
    /// The counters the audio side reports to the editor, each sent as a byte
    /// (kept modulo 256).
    pub fn from_metrics(metrics: &VoicesHandlerMetrics) -> (r: Self)
        ensures
            r.waiting_notes == metrics.waiting as u8,
            r.playing == metrics.playing as u8,
            r.releasing == metrics.releasing as u8,
            r.killing == metrics.killing as u8,
    {
        VoicesStatus {
            waiting_notes: metrics.waiting as u8,
            playing: metrics.playing as u8,
            releasing: metrics.releasing as u8,
            killing: metrics.killing as u8,
        }
    }

    /// Whether some voice sounds (playing or releasing).
    pub fn has_active_voices(&self) -> (r: bool)
        requires
            self.playing + self.releasing <= u8::MAX,
        ensures
            r == (self.playing + self.releasing > 0),
    {
        self.playing + self.releasing > 0
    }
}

/// A module as the editor sees it.
#[derive(Debug, Clone)]
pub struct Module {
    pub id: ModuleId,
    pub module_type: ModuleType,
    pub inputs: Vec<InputMeta>,
    pub output_type: DataType,
}

pub struct ModuleItem {
    pub id: ModuleId,
    pub module_type: ModuleType,
    pub label: String,
}

pub struct LinkableModulation {
    pub module_id: ModuleId,
    pub label: String,
}

pub struct LinkableInput {
    pub input_type: Input,
    pub modulations: Vec<LinkableModulation>,
}

pub struct AvailableInputSource {
    pub src: ModuleId,
    pub label: String,
}

pub struct InputModulation {
    pub src: ModuleId,
    pub label: String,
}

pub struct ConnectedInputSource {
    pub src: ModuleId,
    pub amount: StereoSample,
    pub label: String,
    pub modulation: Option<InputModulation>,
}

/// What creating a link to an input amounts to.
#[derive(Debug, Clone, Copy)]
pub enum LinkAction {
    /// The input takes a single source: replace it.
    SetDirect,
    /// The input mixes sources: add one with this amount.
    AddMixed(StereoSample),
}

/// One connected input of a module and its sources.
pub struct ModuleInput {
    pub meta: InputMeta,
    pub sources: Vec<MixedSource>,
}

/// The inputs and output of one module, for the widget that draws it.
pub struct ModuleIo {
    pub id: ModuleId,
    pub module_type: ModuleType,
    pub inputs_meta: Vec<InputMeta>,
    pub inputs: Vec<ModuleInput>,
    pub output_type: DataType,
    pub output_connected: bool,
}

/// The routing graph as the editor sees it.
pub struct RoutingState {
    pub modules: Vec<Module>,
    pub routing: Vec<RoutingEntry>,
    pub modules_io: Option<Vec<ModuleIo>>,
}

/// Module `id` feeds (or modulates) some input.
pub open spec fn output_connected(rs: Seq<RoutingEntry>, id: ModuleId) -> bool {
    exists|k: int| 0 <= k < rs.len() && #[trigger] crate::routing_graph::entry_sources(rs[k]).contains(id)
}

/// The connected inputs of module `m`: its inputs that have a routing entry, with their sources.
pub open spec fn connected_inputs(rs: Seq<RoutingEntry>, m: Module) -> Seq<(InputMeta, Seq<MixedSource>)> {
    m.inputs@.filter(
        |meta: InputMeta| sources_of_input(rs, InputId { input_type: meta.input_type, module_id: m.id }) is Some,
    ).map_values(
        |meta: InputMeta| (meta, sources_of_input(rs, InputId { input_type: meta.input_type, module_id: m.id })->0),
    )
}

pub open spec fn module_input_model(i: ModuleInput) -> (InputMeta, Seq<MixedSource>) {
    (i.meta, i.sources@)
}

/// What the widget of module `m` is given.
pub open spec fn module_io_matches(io: ModuleIo, rs: Seq<RoutingEntry>, m: Module) -> bool {
    &&& io.id == m.id
    &&& io.module_type == m.module_type
    &&& io.inputs_meta@ == m.inputs@
    &&& io.inputs@.map_values(|i: ModuleInput| module_input_model(i)) == connected_inputs(rs, m)
    &&& io.output_type == m.output_type
    &&& io.output_connected == output_connected(rs, m.id)
}

/// A copy of a vector of plain values.
fn copy_vec<T: Copy>(v: &Vec<T>) -> (r: Vec<T>)
    ensures
        r@ == v@,
{
    let mut r: Vec<T> = Vec::new();
    let mut i: usize = 0;
    while i < v.len()
        invariant
            i <= v@.len(),
            r@ == v@.take(i as int),
        decreases v@.len() - i,
    {
        r.push(v[i]);
        proof {
            assert(v@.take(i + 1) =~= v@.take(i as int).push(v@[i as int]));
        }
        i = i + 1;
    }
    proof {
        assert(v@.take(i as int) =~= v@);
    }
    r
}

/// Whether module `id` feeds some input.
#[verifier::loop_isolation(false)]
fn is_output_connected(routing: &Vec<RoutingEntry>, id: ModuleId) -> (r: bool)
    ensures
        r == output_connected(routing@, id),
{
    let mut k: usize = 0;
    while k < routing.len()
        invariant
            k <= routing@.len(),
            forall|j: int| 0 <= j < k ==> !(#[trigger] crate::routing_graph::entry_sources(routing@[j]).contains(id)),
        decreases routing@.len() - k,
    {
        let ids = crate::routing_graph::sources_of(&routing[k]);
        let mut j: usize = 0;
        while j < ids.len()
            invariant
                j <= ids@.len(),
                ids@ == crate::routing_graph::entry_sources(routing@[k as int]),
                forall|q: int| 0 <= q < j ==> ids@[q] != id,
            decreases ids@.len() - j,
        {
            if ids[j] == id {
                assert(crate::routing_graph::entry_sources(routing@[k as int]).contains(id));
                return true;
            }
            j = j + 1;
        }
        k = k + 1;
    }
    false
}

/// The widget description of module `m`.
#[verifier::loop_isolation(false)]
fn module_io(routing: &Vec<RoutingEntry>, m: &Module) -> (io: ModuleIo)
    ensures
        module_io_matches(io, routing@, *m),
{
    let mut inputs: Vec<ModuleInput> = Vec::new();
    let ghost pred = |meta: InputMeta| sources_of_input(routing@, InputId { input_type: meta.input_type, module_id: m.id }) is Some;
    let ghost f = |meta: InputMeta| (meta, sources_of_input(routing@, InputId { input_type: meta.input_type, module_id: m.id })->0);
    let mut i: usize = 0;
    while i < m.inputs.len()
        invariant
            i <= m.inputs@.len(),
            inputs@.map_values(|i: ModuleInput| module_input_model(i)) == m.inputs@.take(i as int).filter(pred).map_values(f),
        decreases m.inputs@.len() - i,
    {
        let meta = m.inputs[i];
        proof {
            assert(m.inputs@.take(i + 1) =~= m.inputs@.take(i as int).push(meta));
            lemma_filter_map_push(m.inputs@.take(i as int), meta, pred, f);
        }
        if let Some(e) = find_entry(routing, InputId::new(meta.input_type, m.id)) {
            let mi = ModuleInput { meta, sources: copy_vec(&routing[e].sources) };
            let ghost before = inputs@;
            inputs.push(mi);
            proof {
                assert(inputs@ =~= before.push(mi));
                assert(inputs@.map_values(|i: ModuleInput| module_input_model(i)) =~= before.map_values(|i: ModuleInput| module_input_model(i)).push(module_input_model(mi)));
            }
        }
        i = i + 1;
    }
    proof {
        assert(m.inputs@.take(i as int) =~= m.inputs@);
    }
    ModuleIo {
        id: m.id,
        module_type: m.module_type,
        inputs_meta: copy_vec(&m.inputs),
        inputs,
        output_type: m.output_type,
        output_connected: is_output_connected(routing, m.id),
    }
}

pub open spec fn module_has_id(id: ModuleId) -> spec_fn(Module) -> bool {
    |m: Module| m.id == id
}

pub open spec fn config_has_id(id: ModuleId) -> spec_fn(UiModuleConfig) -> bool {
    |c: UiModuleConfig| c.id == id
}

pub open spec fn entry_for(input: InputId) -> spec_fn(RoutingEntry) -> bool {
    |e: RoutingEntry| e.input == input
}

pub open spec fn meta_of_type(t: Input) -> spec_fn(InputMeta) -> bool {
    |m: InputMeta| m.input_type == t
}

/// The label of module `id`, or the empty string for a module without settings.
pub open spec fn label_of(ui: Seq<UiModuleConfig>, id: ModuleId) -> Seq<char> {
    let i = first_index(ui, config_has_id(id));
    if i >= 0 {
        ui[i].label@
    } else {
        Seq::empty()
    }
}

/// The sources feeding `input`, if the routing has an entry for it.
pub open spec fn sources_of_input(rs: Seq<RoutingEntry>, input: InputId) -> Option<Seq<MixedSource>> {
    let e = first_index(rs, entry_for(input));
    if e >= 0 {
        Some(rs[e].sources@)
    } else {
        None
    }
}

/// `src` already feeds `input`.
pub open spec fn input_has_source(rs: Seq<RoutingEntry>, input: InputId, src: ModuleId) -> bool {
    match sources_of_input(rs, input) {
        Some(s) => has_source_from(s, src),
        None => false,
    }
}

/// `src` (whose output is `src_type`) can be linked into input `meta` of `dst`:
/// not itself, a compatible type, no cycle, and not already feeding that input.
pub open spec fn linkable(
    rs: Seq<RoutingEntry>,
    src: ModuleId,
    dst: ModuleId,
    src_type: DataType,
    meta: InputMeta,
) -> bool {
    &&& src != dst
    &&& compatible(src_type, meta.data_type)
    &&& !depends_on(rs, src, dst)
    &&& !input_has_source(rs, InputId { input_type: meta.input_type, module_id: dst }, src)
}

/// `src` can be linked into some input of `dst`: both modules exist and one
/// input of `dst` is linkable from `src`.
pub open spec fn can_link(ms: Seq<Module>, rs: Seq<RoutingEntry>, src: ModuleId, dst: ModuleId) -> bool {
    let di = first_index(ms, module_has_id(dst));
    let si = first_index(ms, module_has_id(src));
    di >= 0 && si >= 0 && exists|k: int|
        0 <= k < ms[di].inputs@.len() && #[trigger] linkable(rs, src, dst, ms[si].output_type, ms[di].inputs@[k])
}

/// The inputs of `dst` that `src` can be linked into, in order; none when
/// either module is unknown.
pub open spec fn linkable_metas(ms: Seq<Module>, rs: Seq<RoutingEntry>, src: ModuleId, dst: ModuleId) -> Seq<InputMeta> {
    let di = first_index(ms, module_has_id(dst));
    let si = first_index(ms, module_has_id(src));
    if di >= 0 && si >= 0 {
        ms[di].inputs@.filter(|meta: InputMeta| linkable(rs, src, dst, ms[si].output_type, meta))
    } else {
        Seq::empty()
    }
}

/// `src` can be linked to `dst` exactly when the list of inputs of `dst` that
/// it can be linked into is not empty.
pub proof fn lemma_can_link_iff_linkable_inputs(state: RoutingState, src: ModuleId, dst: ModuleId)
    ensures
        can_link(state.modules@, state.routing@, src, dst) <==> linkable_metas(
            state.modules@,
            state.routing@,
            src,
            dst,
        ).len() > 0,
{
    let ms = state.modules@;
    let rs = state.routing@;
    let di = first_index(ms, module_has_id(dst));
    let si = first_index(ms, module_has_id(src));
    if di >= 0 && si >= 0 {
        let inputs = ms[di].inputs@;
        let pred = |meta: InputMeta| linkable(rs, src, dst, ms[si].output_type, meta);
        if can_link(ms, rs, src, dst) {
            let k = choose|k: int|
                0 <= k < inputs.len() && #[trigger] linkable(rs, src, dst, ms[si].output_type, inputs[k]);
            assert(pred(inputs[k]));
            inputs.lemma_filter_contains(pred, k);
        }
        if inputs.filter(pred).len() > 0 {
            inputs.lemma_filter_pred(pred, 0);
            let x = inputs.filter(pred)[0];
            assert(inputs.filter(pred).contains(x));
            inputs.lemma_filter_contains_rev(pred, x);
            let k = choose|k: int| 0 <= k < inputs.len() && inputs[k] == x;
            assert(linkable(rs, src, dst, ms[si].output_type, inputs[k]));
        }
    }
}

/// Sources of `input` that `src` does not already modulate.
pub open spec fn modulation_candidates(rs: Seq<RoutingEntry>, input: InputId, src: ModuleId) -> Seq<ModuleId> {
    match sources_of_input(rs, input) {
        Some(s) => s.filter(|x: MixedSource| x.modulation != Some(src)).map_values(|x: MixedSource| x.module_id),
        None => Seq::empty(),
    }
}

pub open spec fn labelled(ui: Seq<UiModuleConfig>, ids: Seq<ModuleId>) -> Seq<(ModuleId, Seq<char>)> {
    ids.map_values(|id: ModuleId| (id, label_of(ui, id)))
}

pub open spec fn linkable_input_model(l: LinkableInput) -> (Input, Seq<(ModuleId, Seq<char>)>) {
    (l.input_type, l.modulations@.map_values(|m: LinkableModulation| (m.module_id, m.label@)))
}

pub open spec fn available_model(a: AvailableInputSource) -> (ModuleId, Seq<char>) {
    (a.src, a.label@)
}

pub open spec fn module_item_model(m: ModuleItem) -> (ModuleId, ModuleType, Seq<char>) {
    (m.id, m.module_type, m.label@)
}

pub open spec fn connected_model(c: ConnectedInputSource) -> (
    ModuleId,
    StereoSample,
    Seq<char>,
    Option<(ModuleId, Seq<char>)>,
) {
    (
        c.src,
        c.amount,
        c.label@,
        match c.modulation {
            Some(m) => Some((m.src, m.label@)),
            None => None,
        },
    )
}

/// The data type of input `input`: the output module's audio input, or the
/// declared type of an input of a known module.
pub open spec fn input_data_type(ms: Seq<Module>, input: InputId) -> Option<DataType> {
    if input.module_id == OUTPUT_MODULE_ID && input.input_type == Input::Audio {
        Some(DataType::Audio)
    } else {
        let mi = first_index(ms, module_has_id(input.module_id));
        if mi >= 0 {
            let k = first_index(ms[mi].inputs@, meta_of_type(input.input_type));
            if k >= 0 {
                Some(ms[mi].inputs@[k].data_type)
            } else {
                None
            }
        } else {
            None
        }
    }
}

/// The description of input `input` used when a link to it is created.
pub open spec fn input_meta(ms: Seq<Module>, input: InputId) -> Option<InputMeta> {
    if input.module_id == OUTPUT_MODULE_ID && input.input_type == Input::Audio {
        Some(InputMeta { input_type: Input::Audio, data_type: DataType::Audio, is_direct: false })
    } else {
        let mi = first_index(ms, module_has_id(input.module_id));
        if mi >= 0 {
            let k = first_index(ms[mi].inputs@, meta_of_type(input.input_type));
            if k >= 0 {
                Some(ms[mi].inputs@[k])
            } else {
                None
            }
        } else {
            None
        }
    }
}

fn find_module(ms: &Vec<Module>, id: ModuleId) -> (r: Option<usize>)
    ensures
        found_at(r, first_index(ms@, module_has_id(id))),
{
    let mut i: usize = 0;
    while i < ms.len()
        invariant
            i <= ms@.len(),
            forall|j: int| 0 <= j < i ==> !module_has_id(id)(#[trigger] ms@[j]),
        decreases ms@.len() - i,
    {
        if ms[i].id == id {
            proof {
                lemma_first_index_is(ms@, module_has_id(id), i as int);
            }
            return Some(i);
        }
        i = i + 1;
    }
    proof {
        lemma_first_index_none(ms@, module_has_id(id));
    }
    None
}

fn find_entry(rs: &Vec<RoutingEntry>, input: InputId) -> (r: Option<usize>)
    ensures
        found_at(r, first_index(rs@, entry_for(input))),
{
    let mut i: usize = 0;
    while i < rs.len()
        invariant
            i <= rs@.len(),
            forall|j: int| 0 <= j < i ==> !entry_for(input)(#[trigger] rs@[j]),
        decreases rs@.len() - i,
    {
        if rs[i].input == input {
            proof {
                lemma_first_index_is(rs@, entry_for(input), i as int);
            }
            return Some(i);
        }
        i = i + 1;
    }
    proof {
        lemma_first_index_none(rs@, entry_for(input));
    }
    None
}

fn find_meta(inputs: &Vec<InputMeta>, t: Input) -> (r: Option<usize>)
    ensures
        found_at(r, first_index(inputs@, meta_of_type(t))),
{
    let mut i: usize = 0;
    while i < inputs.len()
        invariant
            i <= inputs@.len(),
            forall|j: int| 0 <= j < i ==> !meta_of_type(t)(#[trigger] inputs@[j]),
        decreases inputs@.len() - i,
    {
        if inputs[i].input_type == t {
            proof {
                lemma_first_index_is(inputs@, meta_of_type(t), i as int);
            }
            return Some(i);
        }
        i = i + 1;
    }
    proof {
        lemma_first_index_none(inputs@, meta_of_type(t));
    }
    None
}

/// The character of decimal digit `d`.
pub open spec fn digit_char(d: nat) -> char {
    (d + 48) as char
}

/// The decimal digits of `n`, most significant first, without leading zeros.
pub open spec fn decimal_digits(n: nat) -> Seq<char>
    decreases n,
{
    if n < 10 {
        seq![digit_char(n)]
    } else {
        decimal_digits(n / 10).push(digit_char(n % 10))
    }
}

/// `n` in decimal, with a leading minus sign when it is negative.
pub open spec fn decimal_text(n: int) -> Seq<char> {
    if n < 0 {
        seq!['-'] + decimal_digits((-n) as nat)
    } else {
        decimal_digits(n as nat)
    }
}

/// The text `label` followed by a space and `id` in decimal.
pub open spec fn label_with_id(label: Seq<char>, id: ModuleId) -> Seq<char> {
    label + seq![' '] + decimal_text(id as int)
}

/// `format!("{label} {id}")`: the label, a space, then the id as `Display`
/// writes an `i32`, in decimal with a minus sign when negative.
#[verifier::external_body]
fn labelled_with_id(label: &str, id: ModuleId) -> (r: String)
    ensures
        r@ == label_with_id(label@, id),
{
    format!("{label} {id}")
}

/// The name new modules of type `t` are labelled with.
pub open spec fn type_label(t: ModuleType) -> Seq<char> {
    match t {
        ModuleType::Output => "Output"@,
        ModuleType::Amplifier => "Amplifier"@,
        ModuleType::Envelope => "Envelope"@,
        ModuleType::Mixer => "Mixer"@,
        ModuleType::Oscillator => "Oscillator"@,
        ModuleType::SpectralFilter => "SpectralFilter"@,
        ModuleType::SpectralBlend => "SpectralBlend"@,
        ModuleType::SpectralMixer => "SpectralMixer"@,
        ModuleType::HarmonicEditor => "HarmonicEditor"@,
        ModuleType::ExternalParam => "ExternalParam"@,
        ModuleType::Lfo => "Lfo"@,
        ModuleType::WaveShaper => "WaveShaper"@,
        ModuleType::Expressions => "Expressions"@,
    }
}

impl ModuleType {
    /// The name new modules of this type are labelled with.
    pub fn label(&self) -> (s: &'static str)
        ensures
            s@ == type_label(*self),
    {
        match self {
            ModuleType::Output => "Output",
            ModuleType::Amplifier => "Amplifier",
            ModuleType::Envelope => "Envelope",
            ModuleType::Mixer => "Mixer",
            ModuleType::Oscillator => "Oscillator",
            ModuleType::SpectralFilter => "SpectralFilter",
            ModuleType::SpectralBlend => "SpectralBlend",
            ModuleType::SpectralMixer => "SpectralMixer",
            ModuleType::HarmonicEditor => "HarmonicEditor",
            ModuleType::ExternalParam => "ExternalParam",
            ModuleType::Lfo => "Lfo",
            ModuleType::WaveShaper => "WaveShaper",
            ModuleType::Expressions => "Expressions",
        }
    }
}

/// The grid position of module `id`, the origin for a module without settings.
pub open spec fn position_of(ui: Seq<UiModuleConfig>, id: ModuleId) -> GridVec {
    let i = first_index(ui, config_has_id(id));
    if i >= 0 {
        ui[i].position
    } else {
        GridVec { x: 0, y: 0 }
    }
}

/// The settings after storing `config` under its id: it replaces the settings
/// with that id, or is added after the others.
pub open spec fn with_module_config(ui: Seq<UiModuleConfig>, config: UiModuleConfig) -> Seq<UiModuleConfig> {
    let i = first_index(ui, config_has_id(config.id));
    if i >= 0 {
        ui.update(i, config)
    } else {
        ui.push(config)
    }
}

/// No two module settings share an id.
pub open spec fn config_ids_unique(ui: Seq<UiModuleConfig>) -> bool {
    forall|i: int, j: int| 0 <= i < j < ui.len() ==> #[trigger] ui[i].id != #[trigger] ui[j].id
}

/// Storing settings under their id keeps ids unique.
pub proof fn lemma_with_module_config_unique(ui: Seq<UiModuleConfig>, config: UiModuleConfig)
    requires
        config_ids_unique(ui),
    ensures
        config_ids_unique(with_module_config(ui, config)),
{
    crate::seq_search::lemma_first_index_props(ui, config_has_id(config.id));
    let r = with_module_config(ui, config);
    assert forall|i: int, j: int| 0 <= i < j < r.len() implies #[trigger] r[i].id != #[trigger] r[j].id by {
        if j == ui.len() {
            assert(!config_has_id(config.id)(ui[i]));
        } else {
            assert(ui[i].id != ui[j].id);
        }
    }
}

impl UiConfig {
    fn find(&self, module_id: ModuleId) -> (r: Option<usize>)
        ensures
            found_at(r, first_index(self.modules@, config_has_id(module_id))),
    {
        let mut i: usize = 0;
        while i < self.modules.len()
            invariant
                i <= self.modules@.len(),
                forall|j: int| 0 <= j < i ==> !config_has_id(module_id)(#[trigger] self.modules@[j]),
            decreases self.modules@.len() - i,
        {
            if self.modules[i].id == module_id {
                proof {
                    lemma_first_index_is(self.modules@, config_has_id(module_id), i as int);
                }
                return Some(i);
            }
            i = i + 1;
        }
        proof {
            lemma_first_index_none(self.modules@, config_has_id(module_id));
        }
        None
    }

    pub fn get_module_position(&self, module_id: ModuleId) -> (r: GridVec)
        ensures
            r == position_of(self.modules@, module_id),
    {
        match self.find(module_id) {
            Some(i) => self.modules[i].position,
            None => GridVec::default_position(),
        }
    }

    /// Moves module `module_id`; nothing changes for a module without settings.
    pub fn set_module_position(&mut self, module_id: ModuleId, position: GridVec)
        ensures
            config_ids_unique(old(self).modules@) ==> config_ids_unique(final(self).modules@),
            final(self).modules@ == {
                let i = first_index(old(self).modules@, config_has_id(module_id));
                if i >= 0 {
                    old(self).modules@.update(i, UiModuleConfig { position, ..old(self).modules@[i] })
                } else {
                    old(self).modules@
                }
            },
    {
        if let Some(i) = self.find(module_id) {
            self.modules[i].position = position;
        }
    }

    pub fn get_module_label(&self, module_id: ModuleId) -> (r: String)
        ensures
            r@ == label_of(self.modules@, module_id),
    {
        module_label(self, module_id)
    }

    /// Renames module `module_id`; nothing changes for a module without settings.
    pub fn set_module_label(&mut self, module_id: ModuleId, label: String)
        ensures
            config_ids_unique(old(self).modules@) ==> config_ids_unique(final(self).modules@),
            final(self).modules@ == {
                let i = first_index(old(self).modules@, config_has_id(module_id));
                if i >= 0 {
                    old(self).modules@.update(i, UiModuleConfig { label, ..old(self).modules@[i] })
                } else {
                    old(self).modules@
                }
            },
    {
        if let Some(i) = self.find(module_id) {
            self.modules[i].label = label;
        }
    }

    /// Stores `config` under its id, replacing earlier settings with that id.
    pub fn insert_module(&mut self, config: UiModuleConfig)
        ensures
            final(self).modules@ == with_module_config(old(self).modules@, config),
            config_ids_unique(old(self).modules@) ==> config_ids_unique(final(self).modules@),
    {
        proof {
            if config_ids_unique(self.modules@) {
                lemma_with_module_config_unique(self.modules@, config);
            }
        }
        match self.find(config.id) {
            Some(i) => self.modules.set(i, config),
            None => self.modules.push(config),
        }
    }

    /// The settings of a newly added module `id` of type `module_type`: labelled
    /// with its type and id, in the first column, in the row after the last one.
    pub fn add_module_config(&mut self, id: ModuleId, module_type: ModuleType)
        ensures
            ({
                let i = first_index(old(self).modules@, config_has_id(id));
                let j = if i >= 0 {
                    i
                } else {
                    old(self).modules@.len() as int
                };
                &&& final(self).modules@.len() == if i >= 0 {
                    old(self).modules@.len()
                } else {
                    old(self).modules@.len() + 1
                }
                &&& forall|k: int|
                    0 <= k < old(self).modules@.len() && k != j ==> #[trigger] final(self).modules@[k]
                        == old(self).modules@[k]
                &&& final(self).modules@[j].id == id
                &&& final(self).modules@[j].label@ == label_with_id(type_label(module_type), id)
                &&& final(self).modules@[j].position == (GridVec { x: 1, y: old(self).modules@.len() as i32 })
            }),
            label_of(final(self).modules@, id) == label_with_id(type_label(module_type), id),
            config_ids_unique(old(self).modules@) ==> config_ids_unique(final(self).modules@),
    {
        let grid_y = self.modules.len() as i32;
        let label = labelled_with_id(module_type.label(), id);
        let config = UiModuleConfig { id, label, position: GridVec { x: 1, y: grid_y } };
        let ghost before = self.modules@;
        self.insert_module(config);
        proof {
            let i = first_index(before, config_has_id(id));
            crate::seq_search::lemma_first_index_props(before, config_has_id(id));
            if i >= 0 {
                lemma_first_index_is(self.modules@, config_has_id(id), i);
            } else {
                assert(config_has_id(id)(self.modules@[before.len() as int]));
                assert forall|j: int| 0 <= j < before.len() implies !config_has_id(id)(#[trigger] self.modules@[j]) by {
                    assert(self.modules@[j] == before[j]);
                }
                lemma_first_index_is(self.modules@, config_has_id(id), before.len() as int);
            }
        }
    }
}

/// A modulated input value as the editor shows it.
#[derive(Debug, Clone, Copy)]
pub struct ModulatedValue {
    pub value: StereoSample,
    pub is_stereo: bool,
}

pub open spec fn entry_of_input(input: InputId) -> spec_fn((InputId, StereoSample)) -> bool {
    |e: (InputId, StereoSample)| e.0 == input
}

/// The value last reported for `input`, if any.
pub open spec fn reported_value(entries: Seq<(InputId, StereoSample)>, input: InputId) -> Option<StereoSample> {
    let i = first_index(entries, entry_of_input(input));
    if i >= 0 {
        Some(entries[i].1)
    } else {
        None
    }
}

/// No input is reported in two entries.
pub open spec fn reported_inputs_unique(entries: Seq<(InputId, StereoSample)>) -> bool {
    forall|i: int, j: int| 0 <= i < j < entries.len() ==> #[trigger] entries[i].0 != #[trigger] entries[j].0
}

/// The modulated values the audio side last reported, per input and channel.
pub struct ModulatedInputs {
    entries: Vec<(InputId, StereoSample)>,
}

impl View for ModulatedInputs {
    type V = Seq<(InputId, StereoSample)>;

    closed spec fn view(&self) -> Seq<(InputId, StereoSample)> {
        self.entries@
    }
}

impl ModulatedInputs {
    pub fn new() -> (r: Self)
        ensures
            forall|input: InputId| reported_value(r@, input) is None,
            reported_inputs_unique(r@),
    {
        let r = ModulatedInputs { entries: Vec::new() };
        proof {
            assert forall|input: InputId| reported_value(r@, input) is None by {
                crate::seq_search::lemma_first_index_none(r@, entry_of_input(input));
            }
        }
        r
    }

    fn find(&self, input: InputId) -> (r: Option<usize>)
        ensures
            found_at(r, first_index(self@, entry_of_input(input))),
    {
        let mut i: usize = 0;
        while i < self.entries.len()
            invariant
                i <= self.entries@.len(),
                forall|j: int| 0 <= j < i ==> !entry_of_input(input)(#[trigger] self.entries@[j]),
            decreases self.entries@.len() - i,
        {
            if self.entries[i].0 == input {
                proof {
                    lemma_first_index_is(self.entries@, entry_of_input(input), i as int);
                }
                return Some(i);
            }
            i = i + 1;
        }
        proof {
            lemma_first_index_none(self.entries@, entry_of_input(input));
        }
        None
    }

    pub fn get(&self, input: InputId) -> (r: Option<StereoSample>)
        ensures
            r == reported_value(self@, input),
    {
        match self.find(input) {
            Some(i) => Some(self.entries[i].1),
            None => None,
        }
    }

    /// Records the value `bits` reported for channel `channel` of `input`; the
    /// other channel keeps its last value (zero before any report).
    pub fn record(&mut self, input: InputId, channel: u8, bits: SampleBits)
        requires
            channel < 2,
        ensures
            match reported_value(final(self)@, input) {
                Some(v) => {
                    &&& v.channels[channel as int] == bits
                    &&& v.channels[1 - channel] == match reported_value(old(self)@, input) {
                        Some(o) => o.channels[1 - channel],
                        None => 0u32,
                    }
                },
                None => false,
            },
            forall|other: InputId| other != input ==> #[trigger] reported_value(final(self)@, other) == reported_value(old(self)@, other),
            reported_inputs_unique(old(self)@) ==> reported_inputs_unique(final(self)@),
    {
        let ghost before = self@;
        let current = match self.find(input) {
            Some(i) => Some((i, self.entries[i].1)),
            None => None,
        };
        let (idx, value) = match current {
            Some((i, v)) => (i, v),
            None => {
                self.entries.push((input, StereoSample::zero()));
                (self.entries.len() - 1, StereoSample::zero())
            },
        };
        let updated = if channel == 0 {
            StereoSample::from_bits(bits, value.right_bits())
        } else {
            StereoSample::from_bits(value.left_bits(), bits)
        };
        let ghost mid = self@;
        self.entries.set(idx, (input, updated));
        proof {
            assert forall|other: InputId| other != input implies #[trigger] reported_value(self@, other)
                == reported_value(before, other) by {
                crate::seq_search::lemma_first_index_same_pattern(self@, mid, entry_of_input(other));
                if current is None {
                    crate::seq_search::lemma_first_index_props(before, entry_of_input(other));
                    crate::seq_search::lemma_first_index_props(mid, entry_of_input(other));
                    let i = first_index(before, entry_of_input(other));
                    if i >= 0 {
                        assert(mid[i] == before[i]);
                        assert forall|j: int| 0 <= j < i implies !entry_of_input(other)(#[trigger] mid[j]) by {
                            assert(mid[j] == before[j]);
                        }
                        lemma_first_index_is(mid, entry_of_input(other), i);
                    } else {
                        assert forall|j: int| 0 <= j < mid.len() implies !entry_of_input(other)(#[trigger] mid[j]) by {
                            if j < before.len() {
                                assert(mid[j] == before[j]);
                            }
                        }
                        lemma_first_index_none(mid, entry_of_input(other));
                    }
                }
            }
            crate::seq_search::lemma_first_index_same_pattern(self@, mid, entry_of_input(input));
            crate::seq_search::lemma_first_index_props(before, entry_of_input(input));
            if reported_inputs_unique(before) {
                assert forall|i: int, j: int| 0 <= i < j < self@.len() implies #[trigger] self@[i].0
                    != #[trigger] self@[j].0 by {
                    if current is None && j == before.len() {
                        assert(!entry_of_input(input)(before[i]));
                    } else {
                        assert(before[i].0 != before[j].0);
                    }
                }
            }
            if current is None {
                crate::seq_search::lemma_first_index_props(before, entry_of_input(input));
                assert forall|j: int| 0 <= j < before.len() implies !entry_of_input(input)(#[trigger] mid[j]) by {
                    assert(mid[j] == before[j]);
                }
                lemma_first_index_is(mid, entry_of_input(input), before.len() as int);
            }
        }
    }
}

/// The label of module `module_id`, or an empty string.
pub fn module_label(ui_config: &UiConfig, module_id: ModuleId) -> (r: String)
    ensures
        r@ == label_of(ui_config.modules@, module_id),
{
    let mut i: usize = 0;
    while i < ui_config.modules.len()
        invariant
            i <= ui_config.modules@.len(),
            forall|j: int| 0 <= j < i ==> !config_has_id(module_id)(#[trigger] ui_config.modules@[j]),
        decreases ui_config.modules@.len() - i,
    {
        if ui_config.modules[i].id == module_id {
            proof {
                lemma_first_index_is(ui_config.modules@, config_has_id(module_id), i as int);
            }
            return ui_config.modules[i].label.clone();
        }
        i = i + 1;
    }
    proof {
        lemma_first_index_none(ui_config.modules@, config_has_id(module_id));
    }
    String::new()
}

/// No two modules share an id.
pub open spec fn module_ids_unique(ms: Seq<Module>) -> bool {
    forall|i: int, j: int| 0 <= i < j < ms.len() ==> #[trigger] ms[i].id != #[trigger] ms[j].id
}

/// No input has two routing entries.
pub open spec fn routing_inputs_unique(rs: Seq<RoutingEntry>) -> bool {
    forall|i: int, j: int| 0 <= i < j < rs.len() ==> #[trigger] rs[i].input != #[trigger] rs[j].input
}

impl RoutingState {
    /// Modules are keyed by id, routing entries by input.
    pub open spec fn keys_unique(&self) -> bool {
        module_ids_unique(self.modules@) && routing_inputs_unique(self.routing@)
    }

    /// The state for `modules` and `routing`, with the widget description of
    /// every module, in order.
    pub fn new(modules: Vec<Module>, routing: Vec<RoutingEntry>) -> (r: Self)
        ensures
            r.modules@ == modules@,
            r.routing@ == routing@,
            r.modules_io matches Some(io) && io@.len() == modules@.len() && forall|i: int|
                0 <= i < modules@.len() ==> #[trigger] module_io_matches(io@[i], routing@, modules@[i]),
    {
        let mut io: Vec<ModuleIo> = Vec::new();
        let mut i: usize = 0;
        while i < modules.len()
            invariant
                i <= modules@.len(),
                io@.len() == i,
                forall|j: int| 0 <= j < i ==> #[trigger] module_io_matches(io@[j], routing@, modules@[j]),
            decreases modules@.len() - i,
        {
            io.push(module_io(&routing, &modules[i]));
            i = i + 1;
        }
        Self { modules, routing, modules_io: Some(io) }
    }

    /// Hands the widget descriptions over, once.
    pub fn take_modules_io(&mut self) -> (r: Option<Vec<ModuleIo>>)
        ensures
            r == old(self).modules_io,
            final(self).modules_io is None,
            final(self).modules@ == old(self).modules@,
            final(self).routing@ == old(self).routing@,
    {
        self.modules_io.take()
    }

    pub fn has_module_id(&self, module_id: ModuleId) -> (r: bool)
        ensures
            r == (first_index(self.modules@, module_has_id(module_id)) >= 0),
    {
        find_module(&self.modules, module_id).is_some()
    }

    /// Every module, labelled.
    #[verifier::loop_isolation(false)]
    pub fn get_modules(&self, ui_config: &UiConfig) -> (r: Vec<ModuleItem>)
        ensures
            r@.map_values(|m: ModuleItem| module_item_model(m)) == self.modules@.map_values(
                |m: Module| (m.id, m.module_type, label_of(ui_config.modules@, m.id)),
            ),
    {
        let mut r: Vec<ModuleItem> = Vec::new();
        let mut i: usize = 0;
        while i < self.modules.len()
            invariant
                i <= self.modules@.len(),
                r@.map_values(|m: ModuleItem| module_item_model(m)) == self.modules@.take(i as int).map_values(
                    |m: Module| (m.id, m.module_type, label_of(ui_config.modules@, m.id)),
                ),
            decreases self.modules@.len() - i,
        {
            let m = &self.modules[i];
            let item = ModuleItem { id: m.id, module_type: m.module_type, label: module_label(ui_config, m.id) };
            let ghost before = r@;
            r.push(item);
            proof {
                assert(self.modules@.take(i + 1) =~= self.modules@.take(i as int).push(self.modules@[i as int]));
                assert(r@ =~= before.push(item));
                assert(r@.map_values(|m: ModuleItem| module_item_model(m)) =~= before.map_values(|m: ModuleItem| module_item_model(m)).push(module_item_model(item)));
                assert(self.modules@.take(i + 1).map_values(|m: Module| (m.id, m.module_type, label_of(ui_config.modules@, m.id)))
                    =~= self.modules@.take(i as int).map_values(|m: Module| (m.id, m.module_type, label_of(ui_config.modules@, m.id))).push(
                        (m.id, m.module_type, label_of(ui_config.modules@, m.id))));
            }
            i = i + 1;
        }
        proof {
            assert(self.modules@.take(i as int) =~= self.modules@);
        }
        r
    }

    /// Whether `src` already feeds `input`.
    #[verifier::loop_isolation(false)]
    fn input_has_source(&self, input: InputId, src: ModuleId) -> (r: bool)
        ensures
            r == input_has_source(self.routing@, input, src),
    {
        match find_entry(&self.routing, input) {
            Some(e) => {
                let sources = &self.routing[e].sources;
                let mut i: usize = 0;
                while i < sources.len()
                    invariant
                        e < self.routing@.len(),
                        sources@ == self.routing@[e as int].sources@,
                        i <= sources@.len(),
                        forall|j: int| 0 <= j < i ==> #[trigger] sources@[j].module_id != src,
                    decreases sources@.len() - i,
                {
                    if sources[i].module_id == src {
                        assert(crate::routing::from_module(src)(sources@[i as int]));
                        return true;
                    }
                    i = i + 1;
                }
                false
            },
            None => false,
        }
    }

    /// Whether `src` (with output type `src_output_type`) can be linked to input `meta` of `dst`.
    pub fn is_linkable_input(
        &self,
        src: ModuleId,
        dst: ModuleId,
        src_output_type: DataType,
        meta: &InputMeta,
    ) -> (r: bool)
        ensures
            r == linkable(self.routing@, src, dst, src_output_type, *meta),
    {
        let input_id = InputId::new(meta.input_type, dst);
        src != dst && data_types_compatible(src_output_type, meta.data_type) && !has_cycle(
            &self.routing,
            src,
            dst,
        ) && !self.input_has_source(input_id, src)
    }

    /// Whether `src` can be linked to some input of `dst`.
    #[verifier::loop_isolation(false)]
    pub fn can_be_linked(&self, src: ModuleId, dst: ModuleId) -> (r: bool)
        ensures
            r == can_link(self.modules@, self.routing@, src, dst),
    {
        let di = match find_module(&self.modules, dst) {
            Some(i) => i,
            None => return false,
        };
        let si = match find_module(&self.modules, src) {
            Some(i) => i,
            None => return false,
        };
        let src_type = self.modules[si].output_type;
        let inputs = &self.modules[di].inputs;
        let mut k: usize = 0;
        while k < inputs.len()
            invariant
                di < self.modules@.len(),
                inputs@ == self.modules@[di as int].inputs@,
                k <= inputs@.len(),
                forall|j: int| 0 <= j < k ==> !#[trigger] linkable(self.routing@, src, dst, src_type, inputs@[j]),
            decreases inputs@.len() - k,
        {
            if self.is_linkable_input(src, dst, src_type, &inputs[k]) {
                return true;
            }
            k = k + 1;
        }
        false
    }

    /// Sources of `input` that `src` does not modulate yet, by module id.
    #[verifier::loop_isolation(false)]
    fn modulation_candidates(&self, input: InputId, src: ModuleId) -> (r: Vec<ModuleId>)
        ensures
            r@ == modulation_candidates(self.routing@, input, src),
    {
        let mut r: Vec<ModuleId> = Vec::new();
        match find_entry(&self.routing, input) {
            Some(e) => {
                let sources = &self.routing[e].sources;
                let ghost pred = |x: MixedSource| x.modulation != Some(src);
                let ghost f = |x: MixedSource| x.module_id;
                let mut i: usize = 0;
                while i < sources.len()
                    invariant
                        e < self.routing@.len(),
                        sources@ == self.routing@[e as int].sources@,
                        i <= sources@.len(),
                        r@ == sources@.take(i as int).filter(pred).map_values(f),
                    decreases sources@.len() - i,
                {
                    let s = sources[i];
                    proof {
                        assert(sources@.take(i + 1) =~= sources@.take(i as int).push(s));
                        lemma_filter_map_push(sources@.take(i as int), s, pred, f);
                    }
                    if s.modulation != Some(src) {
                        r.push(s.module_id);
                    }
                    i = i + 1;
                }
                proof {
                    assert(sources@.take(i as int) =~= sources@);
                }
            },
            None => {},
        }
        r
    }

    /// The inputs of `dst` that `src` can be linked to; for mixed inputs, with
    /// the sources that `src` could modulate.
    #[verifier::loop_isolation(false)]
    pub fn get_linkable_inputs(&self, ui_config: &UiConfig, src: ModuleId, dst: ModuleId) -> (r: Vec<LinkableInput>)
        ensures
            r@.map_values(|l: LinkableInput| linkable_input_model(l)) == linkable_metas(
                self.modules@,
                self.routing@,
                src,
                dst,
            ).map_values(
                        |meta: InputMeta|
                            (
                                meta.input_type,
                                if meta.is_direct {
                                    Seq::empty()
                                } else {
                                    labelled(
                                        ui_config.modules@,
                                        modulation_candidates(
                                            self.routing@,
                                            InputId { input_type: meta.input_type, module_id: dst },
                                            src,
                                        ),
                                    )
                                },
                            ),
                    ),
    {
        let mut r: Vec<LinkableInput> = Vec::new();
        let di = match find_module(&self.modules, dst) {
            Some(i) => i,
            None => return r,
        };
        let si = match find_module(&self.modules, src) {
            Some(i) => i,
            None => return r,
        };
        let src_type = self.modules[si].output_type;
        let inputs = &self.modules[di].inputs;
        let ghost pred = |meta: InputMeta| linkable(self.routing@, src, dst, src_type, meta);
        let ghost f = |meta: InputMeta|
            (
                meta.input_type,
                if meta.is_direct {
                    Seq::empty()
                } else {
                    labelled(
                        ui_config.modules@,
                        modulation_candidates(
                            self.routing@,
                            InputId { input_type: meta.input_type, module_id: dst },
                            src,
                        ),
                    )
                },
            );
        let mut k: usize = 0;
        while k < inputs.len()
            invariant
                di < self.modules@.len(),
                inputs@ == self.modules@[di as int].inputs@,
                k <= inputs@.len(),
                r@.map_values(|l: LinkableInput| linkable_input_model(l)) == inputs@.take(k as int).filter(pred).map_values(f),
            decreases inputs@.len() - k,
        {
            let meta = inputs[k];
            proof {
                assert(inputs@.take(k + 1) =~= inputs@.take(k as int).push(meta));
                lemma_filter_map_push(inputs@.take(k as int), meta, pred, f);
            }
            if self.is_linkable_input(src, dst, src_type, &meta) {
                let mut modulations: Vec<LinkableModulation> = Vec::new();
                if !meta.is_direct {
                    let ids = self.modulation_candidates(InputId::new(meta.input_type, dst), src);
                    let mut j: usize = 0;
                    while j < ids.len()
                        invariant
                            j <= ids@.len(),
                            modulations@.map_values(|m: LinkableModulation| (m.module_id, m.label@)) == labelled(ui_config.modules@, ids@.take(j as int)),
                        decreases ids@.len() - j,
                    {
                        let id = ids[j];
                        let lm = LinkableModulation { module_id: id, label: module_label(ui_config, id) };
                        let ghost before = modulations@;
                        modulations.push(lm);
                        proof {
                            assert(ids@.take(j + 1) =~= ids@.take(j as int).push(id));
                            assert(modulations@ =~= before.push(lm));
                            assert(modulations@.map_values(|m: LinkableModulation| (m.module_id, m.label@)) =~= before.map_values(|m: LinkableModulation| (m.module_id, m.label@)).push((id, lm.label@)));
                            assert(labelled(ui_config.modules@, ids@.take(j + 1)) =~= labelled(ui_config.modules@, ids@.take(j as int)).push((id, label_of(ui_config.modules@, id))));
                        }
                        j = j + 1;
                    }
                    proof {
                        assert(ids@.take(j as int) =~= ids@);
                    }
                } else {
                    proof {
                        assert(modulations@.map_values(|m: LinkableModulation| (m.module_id, m.label@)) =~= Seq::<(ModuleId, Seq<char>)>::empty());
                    }
                }
                let li = LinkableInput { input_type: meta.input_type, modulations };
                let ghost before = r@;
                r.push(li);
                proof {
                    assert(r@ =~= before.push(li));
                    assert(r@.map_values(|l: LinkableInput| linkable_input_model(l)) =~= before.map_values(|l: LinkableInput| linkable_input_model(l)).push(linkable_input_model(li)));
                    assert(linkable_input_model(li) == f(meta));
                }
            }
            k = k + 1;
        }
        proof {
            assert(inputs@.take(k as int) =~= inputs@);
        }
        r
    }

    /// The modules that can feed `input`: compatible, not the input's own
    /// module, and not closing a cycle.
    #[verifier::loop_isolation(false)]
    pub fn get_available_input_sources(&self, ui_config: &UiConfig, input: InputId) -> (r: Vec<AvailableInputSource>)
        ensures
            r@.map_values(|a: AvailableInputSource| available_model(a)) == match input_data_type(self.modules@, input) {
                Some(t) => self.modules@.filter(
                    |m: Module| m.id != input.module_id && compatible(m.output_type, t) && !depends_on(self.routing@, m.id, input.module_id),
                ).map_values(|m: Module| (m.id, label_of(ui_config.modules@, m.id))),
                None => Seq::empty(),
            },
    {
        let mut r: Vec<AvailableInputSource> = Vec::new();
        let dst_data_type = if input.module_id == OUTPUT_MODULE_ID && input.input_type == Input::Audio {
            DataType::Audio
        } else {
            match find_module(&self.modules, input.module_id) {
                Some(mi) => match find_meta(&self.modules[mi].inputs, input.input_type) {
                    Some(k) => self.modules[mi].inputs[k].data_type,
                    None => return r,
                },
                None => return r,
            }
        };
        let ghost pred = |m: Module| m.id != input.module_id && compatible(m.output_type, dst_data_type) && !depends_on(self.routing@, m.id, input.module_id);
        let ghost f = |m: Module| (m.id, label_of(ui_config.modules@, m.id));
        let mut i: usize = 0;
        while i < self.modules.len()
            invariant
                i <= self.modules@.len(),
                input_data_type(self.modules@, input) == Some(dst_data_type),
                r@.map_values(|a: AvailableInputSource| available_model(a)) == self.modules@.take(i as int).filter(pred).map_values(f),
            decreases self.modules@.len() - i,
        {
            let m = &self.modules[i];
            proof {
                assert(self.modules@.take(i + 1) =~= self.modules@.take(i as int).push(self.modules@[i as int]));
                lemma_filter_map_push(self.modules@.take(i as int), self.modules@[i as int], pred, f);
            }
            if m.id != input.module_id && data_types_compatible(m.output_type, dst_data_type) && !has_cycle(&self.routing, m.id, input.module_id) {
                let a = AvailableInputSource { src: m.id, label: module_label(ui_config, m.id) };
                let ghost before = r@;
                r.push(a);
                proof {
                    assert(r@ =~= before.push(a));
                    assert(r@.map_values(|a: AvailableInputSource| available_model(a)) =~= before.map_values(|a: AvailableInputSource| available_model(a)).push(available_model(a)));
                }
            }
            i = i + 1;
        }
        proof {
            assert(self.modules@.take(i as int) =~= self.modules@);
        }
        r
    }

    /// The sources feeding `input` that belong to known modules, labelled.
    #[verifier::loop_isolation(false)]
    pub fn get_connected_input_sources(&self, ui_config: &UiConfig, input: InputId) -> (r: Vec<ConnectedInputSource>)
        ensures
            r@.map_values(|c: ConnectedInputSource| connected_model(c)) == match sources_of_input(self.routing@, input) {
                Some(s) => s.filter(|x: MixedSource| first_index(self.modules@, module_has_id(x.module_id)) >= 0).map_values(
                    |x: MixedSource| (
                        x.module_id,
                        x.amount,
                        label_of(ui_config.modules@, x.module_id),
                        match x.modulation {
                            Some(m) => Some((m, label_of(ui_config.modules@, m))),
                            None => None,
                        },
                    ),
                ),
                None => Seq::empty(),
            },
    {
        let mut r: Vec<ConnectedInputSource> = Vec::new();
        let e = match find_entry(&self.routing, input) {
            Some(e) => e,
            None => return r,
        };
        let sources = &self.routing[e].sources;
        let ghost pred = |x: MixedSource| first_index(self.modules@, module_has_id(x.module_id)) >= 0;
        let ghost f = |x: MixedSource| (
            x.module_id,
            x.amount,
            label_of(ui_config.modules@, x.module_id),
            match x.modulation {
                Some(m) => Some((m, label_of(ui_config.modules@, m))),
                None => None,
            },
        );
        let mut i: usize = 0;
        while i < sources.len()
            invariant
                e < self.routing@.len(),
                sources@ == self.routing@[e as int].sources@,
                sources_of_input(self.routing@, input) == Some(sources@),
                i <= sources@.len(),
                r@.map_values(|c: ConnectedInputSource| connected_model(c)) == sources@.take(i as int).filter(pred).map_values(f),
            decreases sources@.len() - i,
        {
            let s = sources[i];
            proof {
                assert(sources@.take(i + 1) =~= sources@.take(i as int).push(s));
                lemma_filter_map_push(sources@.take(i as int), s, pred, f);
            }
            if find_module(&self.modules, s.module_id).is_some() {
                let modulation = match s.modulation {
                    Some(m) => Some(InputModulation { src: m, label: module_label(ui_config, m) }),
                    None => None,
                };
                let c = ConnectedInputSource {
                    src: s.module_id,
                    amount: s.amount,
                    label: module_label(ui_config, s.module_id),
                    modulation,
                };
                let ghost before = r@;
                r.push(c);
                proof {
                    assert(r@ =~= before.push(c));
                    assert(r@.map_values(|c: ConnectedInputSource| connected_model(c)) =~= before.map_values(|c: ConnectedInputSource| connected_model(c)).push(connected_model(c)));
                }
            }
            i = i + 1;
        }
        proof {
            assert(sources@.take(i as int) =~= sources@);
        }
        r
    }

    /// The modulated value of `input` to show: only for a connected input of a
    /// known module while some voice sounds, and only once the audio side has
    /// reported one. A spectral module's value is one for both channels unless
    /// spectra are stereo.
    pub fn get_input_modulated_value(
        &self,
        modulated: &ModulatedInputs,
        voices: &VoicesStatus,
        stereo_spectrum: bool,
        input: InputId,
    ) -> (r: Option<ModulatedValue>)
        requires
            voices.playing + voices.releasing <= u8::MAX,
        ensures
            ({
                let mi = first_index(self.modules@, module_has_id(input.module_id));
                if sources_of_input(self.routing@, input) is Some && voices.playing + voices.releasing > 0
                    && mi >= 0 && reported_value(modulated@, input) is Some {
                    &&& r is Some
                    &&& r->0.value == reported_value(modulated@, input)->0
                    &&& r->0.is_stereo == !(self.modules@[mi].output_type == DataType::Spectral && !stereo_spectrum)
                } else {
                    r is None
                }
            }),
    {
        if find_entry(&self.routing, input).is_none() || !voices.has_active_voices() {
            return None;
        }
        let mi = match find_module(&self.modules, input.module_id) {
            Some(i) => i,
            None => return None,
        };
        match modulated.get(input) {
            Some(value) => {
                let is_mono = self.modules[mi].output_type == DataType::Spectral && !stereo_spectrum;
                Some(ModulatedValue { value, is_stereo: !is_mono })
            },
            None => None,
        }
    }

    /// What creating a link into `dst` does: replace the single source of a
    /// direct input, or add a mixed source (at zero for control inputs, at
    /// unity otherwise). `None` for an unknown input.
    pub fn create_link_action(&self, dst: InputId) -> (r: Option<LinkAction>)
        ensures
            match input_meta(self.modules@, dst) {
                None => r is None,
                Some(meta) => if meta.is_direct {
                    r == Some(LinkAction::SetDirect)
                } else if meta.data_type == DataType::Control {
                    r == Some(LinkAction::AddMixed(StereoSample { channels: [0u32, 0u32] }))
                } else {
                    r == Some(LinkAction::AddMixed(StereoSample { channels: [0x3f80_0000u32, 0x3f80_0000u32] }))
                },
            },
    {
        let meta = if dst.module_id == OUTPUT_MODULE_ID && dst.input_type == Input::Audio {
            InputMeta::audio(Input::Audio)
        } else {
            match find_module(&self.modules, dst.module_id) {
                Some(mi) => match find_meta(&self.modules[mi].inputs, dst.input_type) {
                    Some(k) => self.modules[mi].inputs[k],
                    None => return None,
                },
                None => return None,
            }
        };
        if meta.is_direct {
            Some(LinkAction::SetDirect)
        } else {
            let amount = if meta.data_type == DataType::Control {
                StereoSample::zero()
            } else {
                StereoSample::one()
            };
            proof {
                assert(amount.channels =~= if meta.data_type == DataType::Control { [0u32, 0u32] } else { [0x3f80_0000u32, 0x3f80_0000u32] });
            }
            Some(LinkAction::AddMixed(amount))
        }
    }

    /// Sets the amount of the first source from `src` feeding `dst`, if there is one.
    pub fn set_link_amount(&mut self, src: ModuleId, dst: InputId, amount: StereoSample)
        ensures
            old(self).keys_unique() ==> final(self).keys_unique(),
            final(self).modules@ == old(self).modules@,
            final(self).routing@.len() == old(self).routing@.len(),
            ({
                let e = first_index(old(self).routing@, entry_for(dst));
                forall|k: int| 0 <= k < old(self).routing@.len() && k != e ==> #[trigger] final(self).routing@[k] == old(self).routing@[k]
            }),
            ({
                let e = first_index(old(self).routing@, entry_for(dst));
                e >= 0 ==> {
                    let os = old(self).routing@[e].sources@;
                    let i = first_index(os, crate::routing::from_module(src));
                    &&& final(self).routing@[e].input == dst
                    &&& final(self).routing@[e].sources@ == if i >= 0 {
                        os.update(i, crate::routing::with_amount(os[i], amount))
                    } else {
                        os
                    }
                }
            }),
    {
        if let Some(e) = find_entry(&self.routing, dst) {
            let mut entry = self.routing.remove(e);
            if let Some(i) = crate::routing::find_source(&entry.sources, src) {
                let s = entry.sources[i];
                entry.sources.set(i, MixedSource { module_id: s.module_id, amount, modulation: s.modulation });
            }
            self.routing.insert(e, entry);
        }
    }
}

} // verus!
