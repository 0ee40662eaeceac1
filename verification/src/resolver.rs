//! Finding the I2C device behind a display output.
//!
//! The kernel lists every connector of every display adapter in one class
//! directory, under a name such as `card0-DP-1`. Inside that entry lies either
//! the I2C bus itself, as an entry named `i2c-N`, or a symbolic link `ddc` that
//! points at it. The search goes from the connector to its bus and never the
//! other way, from the list of all I2C devices back to a connector: there a
//! name that merely ends like the output would be taken for it.
//!
//! Listing a directory is the caller's part. What to list, and which entry is
//! meant, is decided here, one [`Step`] at a time: [`begin`], then
//! [`after_adapters`] with the names of the class directory, then
//! [`after_entries`] with what lies in the entry that was picked.
//! [`resolve`] does the same on a listing that is already in memory.

use vstd::prelude::*;
use crate::path::{final_component, final_component_of};
use crate::text::{chars_of, ends_with, same_text, starts_with};

verus! {

/// The class directory that holds one entry for each connector.
pub const ADAPTER_CLASS_DIR: &'static str = "/sys/class/drm";

/// What the name of every connector entry begins with.
pub const ADAPTER_PREFIX: &'static str = "card";

/// What the name of every I2C bus begins with.
pub const BUS_PREFIX: &'static str = "i2c-";

/// The name of the link from a connector to its I2C bus.
pub const DDC_LINK: &'static str = "ddc";

/// Why no device was found.
#[derive(Debug, Clone, Copy, PartialEq, Eq, Structural)]
pub enum ResolveError {
    /// No connector entry is named after the output.
    OutputNotFound,
    /// The connector entry holds neither an I2C bus nor a usable `ddc` link.
    DeviceNotFound,
}

impl ResolveError {
    /// What to tell the user.
    pub fn message(&self) -> (text: &'static str)
        ensures
            *self == ResolveError::OutputNotFound ==> text@
                == "output name not found in /sys/class/drm"@,
            *self == ResolveError::DeviceNotFound ==> text@ == "i2c dev not found"@,
    {
        match self {
            ResolveError::OutputNotFound => "output name not found in /sys/class/drm",
            ResolveError::DeviceNotFound => "i2c dev not found",
        }
    }
}

/// One entry of a connector's directory, as the caller read it.
#[derive(Debug, Clone, PartialEq, Eq)]
pub struct DirEntry {
    /// The entry's name.
    pub name: String,
    /// Where the entry points, if it is a symbolic link.
    pub link_target: Option<String>,
}

/// What a [`DirEntry`] says: its name and, for a symbolic link, its target.
pub struct EntryView {
    pub name: Seq<char>,
    pub link_target: Option<Seq<char>>,
}

impl View for DirEntry {
    type V = EntryView;

    open spec fn view(&self) -> EntryView {
        EntryView {
            name: self.name@,
            link_target: match self.link_target {
                Some(target) => Some(target@),
                None => None,
            },
        }
    }
}

/// A connector entry of the class directory together with what lies in it.
#[derive(Debug, Clone, PartialEq, Eq)]
pub struct OutputDir {
    /// The entry's name in the class directory.
    pub name: String,
    /// The entries of the directory it stands for, in listing order.
    pub entries: Vec<DirEntry>,
}

/// What an [`OutputDir`] says.
pub struct OutputDirView {
    pub name: Seq<char>,
    pub entries: Seq<EntryView>,
}

impl View for OutputDir {
    type V = OutputDirView;

    open spec fn view(&self) -> OutputDirView {
        OutputDirView { name: self.name@, entries: entry_views(self.entries@) }
    }
}

/// What the caller is to do next.
#[derive(Debug, PartialEq, Eq)]
pub enum Step {
    /// List the class directory and go on with [`after_adapters`].
    ListAdapters,
    /// List this entry of the class directory and go on with [`after_entries`].
    ListOutput(String),
    /// Nothing more: this is the device, or the reason why there is none.
    Done(Result<String, ResolveError>),
}

/// What a [`Step`] says.
pub enum StepView {
    ListAdapters,
    ListOutput(Seq<char>),
    Done(Result<Seq<char>, ResolveError>),
}

impl View for Step {
    type V = StepView;

    open spec fn view(&self) -> StepView {
        match self {
            Step::ListAdapters => StepView::ListAdapters,
            Step::ListOutput(name) => StepView::ListOutput(name@),
            Step::Done(Ok(device)) => StepView::Done(Ok(device@)),
            Step::Done(Err(e)) => StepView::Done(Err(*e)),
        }
    }
}

/// The texts of a list of names.
pub open spec fn texts(names: Seq<String>) -> Seq<Seq<char>> {
    names.map_values(|name: String| name@)
}

/// What a list of entries says.
pub open spec fn entry_views(entries: Seq<DirEntry>) -> Seq<EntryView> {
    entries.map_values(|entry: DirEntry| entry@)
}

/// What a listing of the class directory says.
pub open spec fn dir_views(dirs: Seq<OutputDir>) -> Seq<OutputDirView> {
    dirs.map_values(|dir: OutputDir| dir@)
}

/// The names in a listing of the class directory.
pub open spec fn dir_names(dirs: Seq<OutputDirView>) -> Seq<Seq<char>> {
    dirs.map_values(|dir: OutputDirView| dir.name)
}

/// Whether `output` already names an I2C bus, so that nothing has to be looked up.
pub open spec fn is_device_ref(output: Seq<char>) -> bool {
    BUS_PREFIX@.is_prefix_of(output)
}

/// Whether the connector entry `name` belongs to the output `output`: it begins
/// with the adapter prefix and ends with a hyphen followed by the output's name.
/// The hyphen keeps `DP-1` from matching `card0-eDP-1`.
pub open spec fn names_output(name: Seq<char>, output: Seq<char>) -> bool {
    &&& ADAPTER_PREFIX@.is_prefix_of(name)
    &&& (seq!['-'] + output).is_suffix_of(name)
}

/// The index of the first of `names`, in listing order, that belongs to `output`.
pub open spec fn first_output(names: Seq<Seq<char>>, output: Seq<char>) -> Option<int>
    decreases names.len(),
{
    if names.len() == 0 {
        None
    } else if names_output(names[0], output) {
        Some(0)
    } else {
        match first_output(names.drop_first(), output) {
            Some(i) => Some(i + 1),
            None => None,
        }
    }
}

/// The device that an entry names, if it names one. An entry whose name begins
/// with the bus prefix is the device. An entry named `ddc` that is a symbolic
/// link names the final component of its target.
pub open spec fn device_of(entry: EntryView) -> Option<Seq<char>> {
    if BUS_PREFIX@.is_prefix_of(entry.name) {
        Some(entry.name)
    } else if entry.name == DDC_LINK@ {
        match entry.link_target {
            Some(target) => final_component(target),
            None => None,
        }
    } else {
        None
    }
}

/// The device named by the first of `entries`, in listing order, that names one.
pub open spec fn first_device(entries: Seq<EntryView>) -> Option<Seq<char>>
    decreases entries.len(),
{
    if entries.len() == 0 {
        None
    } else {
        match device_of(entries[0]) {
            Some(device) => Some(device),
            None => first_device(entries.drop_first()),
        }
    }
}

/// The first step: a name that already is a device is the answer as it
/// stands; for any other the class directory has to be listed.
pub open spec fn first_step(output: Seq<char>) -> StepView {
    if is_device_ref(output) {
        StepView::Done(Ok(output))
    } else {
        StepView::ListAdapters
    }
}

/// The step that follows the listing of the class directory: on to the first
/// entry that belongs to the output, or the end if there is none.
pub open spec fn step_after_adapters(output: Seq<char>, names: Seq<Seq<char>>) -> StepView {
    match first_output(names, output) {
        Some(i) => StepView::ListOutput(names[i]),
        None => StepView::Done(Err(ResolveError::OutputNotFound)),
    }
}

/// The answer that the entries of a connector's directory give.
pub open spec fn device_among(entries: Seq<EntryView>) -> Result<Seq<char>, ResolveError> {
    match first_device(entries) {
        Some(device) => Ok(device),
        None => Err(ResolveError::DeviceNotFound),
    }
}

/// The device of `output`, given everything the class directory holds. A name
/// that already is a device is kept as it is, whatever the listing holds.
/// Otherwise the first connector entry that belongs to the output decides: the
/// answer is the first device named in it.
pub open spec fn resolution(output: Seq<char>, dirs: Seq<OutputDirView>) -> Result<
    Seq<char>,
    ResolveError,
> {
    if is_device_ref(output) {
        Ok(output)
    } else {
        match first_output(dir_names(dirs), output) {
            None => Err(ResolveError::OutputNotFound),
            Some(i) => device_among(dirs[i].entries),
        }
    }
}

/// Tells whether `output` is the name of an I2C bus rather than of an output.
pub fn names_device(output: &str) -> (b: bool)
    ensures
        b == is_device_ref(output@),
{
    let output = chars_of(output);
    let prefix = chars_of(BUS_PREFIX);
    starts_with(output.as_slice(), prefix.as_slice())
}

/// Tells whether the connector entry `name` belongs to `output`.
pub fn is_output_dir(name: &str, output: &str) -> (b: bool)
    ensures
        b == names_output(name@, output@),
{
    let name = chars_of(name);
    let output = chars_of(output);
    let prefix = chars_of(ADAPTER_PREFIX);
    let mut tail: Vec<char> = Vec::new();
    tail.push('-');
    let mut i: usize = 0;
    while i < output.len()
        invariant
            i <= output@.len(),
            tail@ == seq!['-'] + output@.take(i as int),
        decreases output@.len() - i,
    {
        tail.push(output[i]);
        i += 1;
    }
    starts_with(name.as_slice(), prefix.as_slice()) && ends_with(name.as_slice(), tail.as_slice())
}

/// Picks the connector entry of `output` from the names of the class
/// directory: the first that belongs to it.
pub fn find_output_dir(names: &Vec<String>, output: &str) -> (found: Result<usize, ResolveError>)
    ensures
        match first_output(texts(names@), output@) {
            Some(i) => found matches Ok(at) && at == i && at < names.len(),
            None => found == Err::<usize, ResolveError>(ResolveError::OutputNotFound),
        },
{
    let ghost all = texts(names@);
    assert(all.skip(0) =~= all);
    let mut i: usize = 0;
    while i < names.len()
        invariant
            i <= names@.len(),
            all == texts(names@),
            first_output(all, output@) == match first_output(all.skip(i as int), output@) {
                Some(j) => Some(j + i),
                None => None,
            },
        decreases names@.len() - i,
    {
        let ghost rest = all.skip(i as int);
        assert(rest.drop_first() =~= all.skip(i + 1));
        if is_output_dir(names[i].as_str(), output) {
            return Ok(i);
        }
        i += 1;
    }
    Err(ResolveError::OutputNotFound)
}

/// Reads the device off one entry.
pub fn entry_device(entry: &DirEntry) -> (device: Option<String>)
    ensures
        match device_of(entry@) {
            Some(text) => device matches Some(found) && found@ == text,
            None => device is None,
        },
{
    let name = chars_of(entry.name.as_str());
    let bus = chars_of(BUS_PREFIX);
    let ddc = chars_of(DDC_LINK);
    if starts_with(name.as_slice(), bus.as_slice()) {
        Some(entry.name.clone())
    } else if same_text(name.as_slice(), ddc.as_slice()) {
        match &entry.link_target {
            Some(target) => final_component_of(target.as_str()),
            None => None,
        }
    } else {
        None
    }
}

/// Picks the device from the entries of a connector's directory: the one named
/// by the first entry that names any.
pub fn pick_device(entries: &Vec<DirEntry>) -> (picked: Result<String, ResolveError>)
    ensures
        match device_among(entry_views(entries@)) {
            Ok(text) => picked matches Ok(found) && found@ == text,
            Err(e) => picked == Err::<String, ResolveError>(e),
        },
{
    let ghost all = entry_views(entries@);
    assert(all.skip(0) =~= all);
    let mut i: usize = 0;
    while i < entries.len()
        invariant
            i <= entries@.len(),
            all == entry_views(entries@),
            first_device(all) == first_device(all.skip(i as int)),
        decreases entries@.len() - i,
    {
        let ghost rest = all.skip(i as int);
        assert(rest.drop_first() =~= all.skip(i + 1));
        if let Some(found) = entry_device(&entries[i]) {
            return Ok(found);
        }
        i += 1;
    }
    Err(ResolveError::DeviceNotFound)
}

/// Takes the first step for `output`.
pub fn begin(output: &str) -> (step: Step)
    ensures
        step@ == first_step(output@),
{
    if names_device(output) {
        Step::Done(Ok(output.to_owned()))
    } else {
        Step::ListAdapters
    }
}

/// Takes the step that follows the listing of the class directory.
pub fn after_adapters(output: &str, names: &Vec<String>) -> (step: Step)
    ensures
        step@ == step_after_adapters(output@, texts(names@)),
{
    match find_output_dir(names, output) {
        Ok(at) => Step::ListOutput(names[at].clone()),
        Err(e) => Step::Done(Err(e)),
    }
}

/// Takes the last step, with the entries of the connector's directory.
pub fn after_entries(entries: &Vec<DirEntry>) -> (step: Step)
    ensures
        step@ == StepView::Done(device_among(entry_views(entries@))),
{
    Step::Done(pick_device(entries))
}

/// Resolves `output` against a listing of the class directory that was read
/// beforehand.
pub fn resolve(output: &str, dirs: &Vec<OutputDir>) -> (device: Result<String, ResolveError>)
    ensures
        match resolution(output@, dir_views(dirs@)) {
            Ok(text) => device matches Ok(found) && found@ == text,
            Err(e) => device == Err::<String, ResolveError>(e),
        },
{
    if names_device(output) {
        return Ok(output.to_owned());
    }
    let mut names: Vec<String> = Vec::new();
    let mut i: usize = 0;
    while i < dirs.len()
        invariant
            i <= dirs@.len(),
            names@.len() == i,
            forall|j: int| 0 <= j < i ==> names@[j]@ == dirs@[j].name@,
        decreases dirs@.len() - i,
    {
        names.push(dirs[i].name.clone());
        i += 1;
    }
    assert(texts(names@) =~= dir_names(dir_views(dirs@)));
    match find_output_dir(&names, output) {
        Err(e) => Err(e),
        Ok(at) => pick_device(&dirs[at].entries),
    }
}

/// First match wins: the index that [`first_output`] gives is that of an entry
/// which belongs to the output, no entry before it does, and where it gives
/// none, no entry does.
pub proof fn lemma_first_output_is_first(names: Seq<Seq<char>>, output: Seq<char>)
    ensures
        match first_output(names, output) {
            Some(i) => {
                &&& 0 <= i < names.len()
                &&& names_output(names[i], output)
                &&& forall|j: int| 0 <= j < i ==> !names_output(#[trigger] names[j], output)
            },
            None => forall|j: int|
                0 <= j < names.len() ==> !names_output(#[trigger] names[j], output),
        },
    decreases names.len(),
{
    if names.len() > 0 && !names_output(names[0], output) {
        let rest = names.drop_first();
        lemma_first_output_is_first(rest, output);
        assert(forall|j: int| 0 < j < names.len() ==> names[j] == rest[j - 1]);
    }
}

/// Whether `entries[at]` is the first entry that names a device.
pub open spec fn is_first_device_at(entries: Seq<EntryView>, at: int) -> bool {
    &&& 0 <= at < entries.len()
    &&& device_of(entries[at]) is Some
    &&& forall|j: int| 0 <= j < at ==> device_of(#[trigger] entries[j]) is None
}

/// First match wins among the entries too: the device that [`first_device`]
/// gives is named by an entry before which no entry names any, and where it
/// gives none, no entry names one.
pub proof fn lemma_first_device_is_first(entries: Seq<EntryView>)
    ensures
        match first_device(entries) {
            Some(device) => exists|at: int| #[trigger]
                is_first_device_at(entries, at) && device_of(entries[at]) == Some(device),
            None => forall|j: int|
                0 <= j < entries.len() ==> device_of(#[trigger] entries[j]) is None,
        },
    decreases entries.len(),
{
    if entries.len() > 0 {
        if device_of(entries[0]) is Some {
            assert(is_first_device_at(entries, 0));
        } else {
            let rest = entries.drop_first();
            lemma_first_device_is_first(rest);
            assert(forall|j: int| 0 < j < entries.len() ==> entries[j] == rest[j - 1]);
            if first_device(rest) is Some {
                let device = first_device(rest)->Some_0;
                let at = choose|at: int| #[trigger]
                    is_first_device_at(rest, at) && device_of(rest[at]) == Some(device);
                assert(is_first_device_at(entries, at + 1));
            }
        }
    }
}

/// The steps lead where [`resolution`] says: a device name ends at once with
/// itself; an output that no entry belongs to ends after the class directory;
/// any other goes on to the first entry that belongs to it, and what lies in
/// that entry gives the answer.
pub proof fn lemma_steps_give_resolution(output: Seq<char>, dirs: Seq<OutputDirView>)
    ensures
        is_device_ref(output) ==> first_step(output) == StepView::Done(resolution(output, dirs)),
        !is_device_ref(output) ==> first_step(output) == StepView::ListAdapters,
        !is_device_ref(output) ==> match first_output(dir_names(dirs), output) {
            None => step_after_adapters(output, dir_names(dirs)) == StepView::Done(
                resolution(output, dirs),
            ),
            Some(i) => {
                &&& 0 <= i < dirs.len()
                &&& step_after_adapters(output, dir_names(dirs)) == StepView::ListOutput(
                    dirs[i].name,
                )
                &&& device_among(dirs[i].entries) == resolution(output, dirs)
            },
        },
{
    lemma_first_output_is_first(dir_names(dirs), output);
}

/// Where a text that ends in `extra` repeats itself `extra.len()` places
/// further on, and `extra` holds no hyphen, the text holds none either.
proof fn lemma_shifted_copy_has_no_hyphen(output: Seq<char>, extra: Seq<char>, at: int)
    requires
        0 <= at < output.len(),
        forall|i: int| 0 <= i < extra.len() ==> extra[i] != '-',
        forall|m: int| 0 <= m < output.len() ==> (output + extra)[extra.len() + m] == output[m],
        extra.len() > 0,
    ensures
        output[at] != '-',
    decreases output.len() - at,
{
    let next = extra.len() + at;
    if next < output.len() {
        lemma_shifted_copy_has_no_hyphen(output, extra, next);
    }
}

/// A longer name does not pass for a shorter one: an entry whose name ends in
/// the name of `output` with more text behind it, text that holds no hyphen,
/// does not belong to `output`. So `card0-DP-10` is never taken for `DP-1`.
pub proof fn lemma_longer_name_is_another_output(
    stem: Seq<char>,
    output: Seq<char>,
    extra: Seq<char>,
)
    requires
        extra.len() > 0,
        forall|i: int| 0 <= i < extra.len() ==> extra[i] != '-',
    ensures
        !names_output(stem + output + extra, output),
{
    let name = stem + output + extra;
    let tail = seq!['-'] + output;
    if tail.is_suffix_of(name) {
        let from = name.len() - tail.len();
        let kept = name.subrange(from, name.len() as int);
        assert forall|m: int| 0 <= m < output.len() implies (output + extra)[extra.len() + m]
            == output[m] by {
            assert(kept[m + 1] == tail[m + 1]);
        }
        assert(kept[0] == '-');
        if extra.len() - 1 < output.len() {
            lemma_shifted_copy_has_no_hyphen(output, extra, extra.len() - 1);
        }
    }
}

/// The hyphen before the output's name is asked for: a name that ends in the
/// output's name with any other character before it does not belong to it. So
/// `card0-eDP-1` is never taken for `DP-1`.
pub proof fn lemma_name_needs_the_hyphen(stem: Seq<char>, before: char, output: Seq<char>)
    requires
        before != '-',
    ensures
        !names_output(stem.push(before) + output, output),
{
    let name = stem.push(before) + output;
    let tail = seq!['-'] + output;
    if tail.is_suffix_of(name) {
        let from = name.len() - tail.len();
        assert(name.subrange(from, name.len() as int)[0] == tail[0]);
    }
}

/// Every name made of the adapter prefix, then anything, then a hyphen and
/// the output's name belongs to the output.
pub proof fn lemma_names_of_an_output(middle: Seq<char>, output: Seq<char>)
    ensures
        names_output(ADAPTER_PREFIX@ + middle + seq!['-'] + output, output),
{
}

/// And no other name does: in a name that belongs to the output, the hyphen
/// and the output's name begin behind the adapter prefix, so that the name is
/// the prefix, what lies between, the hyphen and the output's name.
pub proof fn lemma_shape_of_a_name(name: Seq<char>, output: Seq<char>)
    requires
        names_output(name, output),
    ensures
        ADAPTER_PREFIX@.len() + 1 + output.len() <= name.len(),
        name == ADAPTER_PREFIX@ + name.subrange(
            ADAPTER_PREFIX@.len() as int,
            name.len() - output.len() - 1,
        ) + seq!['-'] + output,
{
    reveal_strlit("card");
    let tail = seq!['-'] + output;
    let from = name.len() - tail.len();
    assert(name.subrange(from, name.len() as int)[0] == '-');
    if from < 4 {
        assert(name.subrange(0, 4)[from] == ADAPTER_PREFIX@[from]);
    }
    assert(name =~= ADAPTER_PREFIX@ + name.subrange(4, from) + seq!['-'] + output) by {
        assert forall|i: int| 0 <= i < name.len() implies name[i] == (ADAPTER_PREFIX@
            + name.subrange(4, from) + seq!['-'] + output)[i] by {
            if i < 4 {
                assert(name.subrange(0, 4)[i] == ADAPTER_PREFIX@[i]);
            } else if i >= from {
                assert(name.subrange(from, name.len() as int)[i - from] == tail[i - from]);
            }
        }
    }
}

} // verus!
