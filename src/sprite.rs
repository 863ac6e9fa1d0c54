//! Sprite animation: picking a frame-range tag from the input signal and
//! advancing frames by elapsed time within the active range.

use vstd::prelude::*;
use crate::aseprite::{AsepriteJSON, Tags};
use crate::components::{InputState, SpriteHandle};

verus! {

/// Failures of the animation driver.
#[derive(Clone, Copy, Debug, PartialEq, Eq, Structural)]
pub enum SpriteError {
    /// The sprite has no tags to pick from.
    NoStateMachine,
    /// No tag carries the name the signal asks for.
    TagNotFound,
}

/// The name of the tag an input state selects.
pub open spec fn tag_name(s: InputState) -> Seq<char> {
    match s {
        InputState::Idle => "still"@,
        InputState::Running => "run"@,
    }
}

/// `k` is the first tag in `tags` named `name`.
pub open spec fn first_tag(tags: Seq<Tags>, name: Seq<char>, k: int) -> bool {
    &&& 0 <= k < tags.len()
    &&& tags[k].name@ == name
    &&& forall|j: int| 0 <= j < k ==> #[trigger] tags[j].name@ != name
}

/// No tag in `tags` is named `name`.
pub open spec fn no_tag(tags: Seq<Tags>, name: Seq<char>) -> bool {
    forall|j: int| 0 <= j < tags.len() ==> #[trigger] tags[j].name@ != name
}

/// The tag name for `s`, as a string.
fn tag_name_of(s: InputState) -> (r: String)
    ensures
        r@ == tag_name(s),
{
    match s {
        InputState::Idle => "still".to_owned(),
        InputState::Running => "run".to_owned(),
    }
}

/// A copy of `t`.
fn copy_tag(t: &Tags) -> (r: Tags)
    ensures
        r.name@ == t.name@,
        r.from == t.from,
        r.to == t.to,
        r.direction@ == t.direction@,
{
    Tags { name: t.name.clone(), from: t.from, to: t.to, direction: t.direction.clone() }
}

/// Maps the input signal to a frame-range tag by name.
pub struct StateMachine {
    pub tags: Vec<Tags>,
}

impl StateMachine {
    /// The index of the first tag named for `object` ("still" for idle,
    /// "run" for running).
    pub fn run(&self, object: InputState) -> (r: Result<usize, SpriteError>)
        ensures
            match r {
                Ok(k) => first_tag(self.tags@, tag_name(object), k as int),
                Err(e) => e == SpriteError::TagNotFound && no_tag(self.tags@, tag_name(object)),
            },
    {
        let name = tag_name_of(object);
        let mut k: usize = 0;
        while k < self.tags.len()
            invariant
                k <= self.tags@.len(),
                name@ == tag_name(object),
                forall|j: int| 0 <= j < k ==> #[trigger] self.tags@[j].name@ != name@,
            decreases self.tags@.len() - k,
        {
            if self.tags[k].name == name {
                return Ok(k);
            }
            k = k + 1;
        }
        Err(SpriteError::TagNotFound)
    }
}

/// Animation state of one sprite instance.
pub struct SpriteState {
    /// The last input signal acknowledged.
    pub state: InputState,
    /// The active tag, as an index into the state machine's tags.
    pub tag: Option<usize>,
    /// The frame shown.
    pub frame_i: usize,
    /// The sheet this instance animates, by index.
    pub sprite: usize,
    /// Microseconds spent on the current frame so far.
    pub time: u64,
    pub texture: u32,
    pub state_machine: Option<StateMachine>,
}

/// Microseconds per millisecond.
pub const MICROS_PER_MILLI: u64 = 1000;

impl SpriteState {
    /// The frames `[from, to)` the animation cycles through on a sheet of
    /// `n` frames: the active tag's range, else the whole sheet.
    pub open spec fn range(&self, n: nat) -> (int, int) {
        match self.tag {
            Some(k) => match self.state_machine {
                Some(sm) => (sm.tags@[k as int].from as int, sm.tags@[k as int].to as int),
                None => (0, n as int),
            },
            None => (0, n as int),
        }
    }

    /// Consistent with a sheet of `n` frames: tags are ranges of existing
    /// frames starting at an existing frame, the active tag exists and the frame exists.
    pub open spec fn wf(&self, n: nat) -> bool {
        &&& self.frame_i < n
        &&& self.state_machine matches Some(sm) ==> forall|k: int|
            0 <= k < sm.tags@.len() ==> {
                let t = #[trigger] sm.tags@[k];
                t.from <= t.to && t.from < n && t.to <= n
            }
        &&& self.tag matches Some(k) ==> (self.state_machine matches Some(sm) && k
            < sm.tags@.len())
    }

    /// A fresh instance of sheet `sprite`: idle, first frame, no active tag,
    /// with the sheet's tags as its state machine when it has any.
    pub fn from_sheet(sprite: usize, sheet: &AsepriteJSON) -> (r: Self)
        requires
            sheet.valid(),
        ensures
            r.wf(sheet.frames@.len()),
            r.state == InputState::Idle,
            r.tag is None,
            r.frame_i == 0,
            r.sprite == sprite,
            r.time == 0,
            r.texture == 0,
            r.state_machine is Some <==> sheet.meta.frame_tags@.len() > 0,
            r.state_machine matches Some(sm) ==> sm.tags@.len() == sheet.meta.frame_tags@.len()
                && forall|k: int|
                0 <= k < sm.tags@.len() ==> #[trigger] sm.tags@[k].name@
                    == sheet.meta.frame_tags@[k].name@ && sm.tags@[k].from
                    == sheet.meta.frame_tags@[k].from && sm.tags@[k].to
                    == sheet.meta.frame_tags@[k].to,
    {
        let mut state = SpriteState {
            state: InputState::Idle,
            tag: None,
            frame_i: 0,
            sprite,
            time: 0,
            texture: 0,
            state_machine: None,
        };
        let n = sheet.meta.frame_tags.len();
        if n > 0 {
            let mut tags: Vec<Tags> = Vec::new();
            let mut k: usize = 0;
            while k < n
                invariant
                    sheet.valid(),
                    n == sheet.meta.frame_tags@.len(),
                    k <= n,
                    tags@.len() == k,
                    forall|j: int|
                        0 <= j < k ==> #[trigger] tags@[j].name@ == sheet.meta.frame_tags@[j].name@
                            && tags@[j].from == sheet.meta.frame_tags@[j].from && tags@[j].to
                            == sheet.meta.frame_tags@[j].to,
                decreases n - k,
            {
                tags.push(copy_tag(&sheet.meta.frame_tags[k]));
                k = k + 1;
            }
            assert forall|j: int| 0 <= j < tags@.len() implies {
                let t = #[trigger] tags@[j];
                t.from <= t.to && t.from < sheet.frames@.len() && t.to <= sheet.frames@.len()
            } by {
                let u = sheet.meta.frame_tags@[j];
                assert(tags@[j].name@ == u.name@);
                assert(u.from <= u.to && u.from < sheet.frames@.len() && u.to <= sheet.frames@.len());
            }
            state.state_machine = Some(StateMachine { tags });
        }
        state
    }

    /// `post` is `pre` after acknowledging `object` with outcome `r`.
    pub open spec fn acked(pre: Self, post: Self, object: InputState, r: Result<(), SpriteError>) -> bool {
        &&& pre.state == object ==> r is Ok && post == pre
        &&& (pre.state != object ==> {
                &&& post.state == object
                &&& post.sprite == pre.sprite
                &&& post.time == pre.time
                &&& post.texture == pre.texture
                &&& post.state_machine == pre.state_machine
                &&& match pre.state_machine {
                    None => {
                        &&& r == Err::<(), SpriteError>(SpriteError::NoStateMachine)
                        &&& post.tag == pre.tag
                        &&& post.frame_i == pre.frame_i
                    },
                    Some(sm) => match r {
                        Ok(_) => {
                            &&& post.tag matches Some(k) && first_tag(
                                sm.tags@,
                                tag_name(object),
                                k as int,
                            ) && post.frame_i == sm.tags@[k as int].from
                        },
                        Err(e) => {
                            &&& e == SpriteError::TagNotFound
                            &&& no_tag(sm.tags@, tag_name(object))
                            &&& post.tag == pre.tag
                            &&& post.frame_i == pre.frame_i
                        },
                    },
                }
            })
    }

    /// Acknowledges an input signal. The same signal as before changes
    /// nothing. A new one is recorded and, when a tag is named for it,
    /// becomes the active tag with the animation restarted at its first
    /// frame; otherwise the tag and frame stay and the error says why.
    pub fn ack(&mut self, object: InputState) -> (r: Result<(), SpriteError>)
        ensures
            Self::acked(*old(self), *final(self), object, r),
    {
        if self.state == object {
            return Ok(());
        }
        self.state = object;
        match &self.state_machine {
            None => Err(SpriteError::NoStateMachine),
            Some(sm) => match sm.run(object) {
                Ok(k) => {
                    self.frame_i = sm.tags[k].from;
                    self.tag = Some(k);
                    Ok(())
                },
                Err(e) => Err(e),
            },
        }
    }

    /// `post` is `pre` advanced by `elapsed` microseconds on `sheet`.
    pub open spec fn advanced(pre: Self, post: Self, sheet: AsepriteJSON, elapsed: u64) -> bool {
        &&& post.wf(sheet.frames@.len())
        &&& {
                let (from, to) = pre.range(sheet.frames@.len());
                let t = if pre.time + elapsed > u64::MAX {
                    u64::MAX as int
                } else {
                    pre.time + elapsed
                };
                let d = sheet.durations()[pre.frame_i as int] * MICROS_PER_MILLI;
                if t > d {
                    &&& post.frame_i == if pre.frame_i + 1 >= to {
                        from
                    } else {
                        pre.frame_i + 1
                    }
                    &&& post.time == if d > 0 {
                        t % d
                    } else {
                        0
                    }
                } else {
                    &&& post.frame_i == pre.frame_i
                    &&& post.time == t
                }
            }
        &&& post.state == pre.state
        &&& post.tag == pre.tag
        &&& post.sprite == pre.sprite
        &&& post.texture == pre.texture
        &&& post.state_machine == pre.state_machine
    }

    /// Advances the animation by `elapsed` microseconds on `sheet` and
    /// returns the frame to show. Time accumulates on the current frame
    /// (saturating at `u64::MAX`); once it exceeds the frame's duration the
    /// next frame of the active range is shown, wrapping to the range's
    /// start, and the time left over modulo the duration is kept.
    pub fn next_frame(&mut self, sheet: &AsepriteJSON, elapsed: u64) -> (r: usize)
        requires
            sheet.valid(),
            old(self).wf(sheet.frames@.len()),
        ensures
            Self::advanced(*old(self), *final(self), *sheet, elapsed),
            r == final(self).frame_i,
    {
        let n = sheet.frames.len();
        let (from, to) = match self.tag {
            Some(k) => match &self.state_machine {
                Some(sm) => (sm.tags[k].from, sm.tags[k].to),
                None => (0, n),
            },
            None => (0, n),
        };
        assert(sheet.frames@[self.frame_i as int].duration <= crate::aseprite::MAX_FRAME_MILLIS);
        let d = sheet.frames[self.frame_i].duration * MICROS_PER_MILLI;
        let t = if elapsed > u64::MAX - self.time {
            u64::MAX
        } else {
            self.time + elapsed
        };
        if t > d {
            if self.frame_i + 1 >= to {
                self.frame_i = from;
            } else {
                self.frame_i = self.frame_i + 1;
            }
            self.time = if d > 0 {
                t % d
            } else {
                0
            };
        } else {
            self.time = t;
        }
        self.frame_i
    }
}

/// The frame size a sprite instance draws at.
pub struct SpriteQuery {
    pub size: (usize, usize),
}

/// Where a sprite's image and sheet description live.
pub struct SpriteConfig {
    pub name: &'static str,
    pub path: &'static str,
    pub json: &'static str,
}

/// Failures of the sprite manager.
#[derive(Clone, Copy, Debug, PartialEq, Eq, Structural)]
pub enum ManagerError {
    /// The sheet has no frames, a tag outside its frames, or a frame
    /// duration too long to measure.
    InvalidSheet,
    /// No sheet was added under the name.
    UnknownSprite,
    /// The handle names no sprite instance.
    UnknownHandle,
    /// The instance could not take the signal.
    Signal(SpriteError),
}

/// The sprite sheets by name and the animation state of every instance.
pub struct SpriteManager {
    sheets: Vec<AsepriteJSON>,
    names: Vec<String>,
    instances: Vec<SpriteState>,
}

impl SpriteManager {
    pub closed spec fn sheets_view(&self) -> Seq<AsepriteJSON> {
        self.sheets@
    }

    /// The animation state of every instance, by handle index.
    pub closed spec fn instances_view(&self) -> Seq<SpriteState> {
        self.instances@
    }

    pub closed spec fn names_view(&self) -> Seq<Seq<char>> {
        self.names@.map_values(|n: String| n@)
    }

    /// Every sheet valid, one name per sheet, every instance animating an
    /// existing sheet consistently.
    pub open spec fn wf(&self) -> bool {
        &&& self.names_view().len() == self.sheets_view().len()
        &&& forall|i: int| 0 <= i < self.sheets_view().len() ==> #[trigger] self.sheets_view()[i].valid()
        &&& forall|i: int|
            0 <= i < self.instances_view().len() ==> {
                let st = #[trigger] self.instances_view()[i];
                &&& st.sprite < self.sheets_view().len()
                &&& st.wf(self.sheets_view()[st.sprite as int].frames@.len())
            }
    }

    /// The sheet a lookup of `name` finds: the one added last under it.
    pub open spec fn latest(&self, name: Seq<char>, i: int) -> bool {
        &&& 0 <= i < self.names_view().len()
        &&& self.names_view()[i] == name
        &&& forall|j: int| i < j < self.names_view().len() ==> #[trigger] self.names_view()[j] != name
    }

    pub fn new() -> (r: Self)
        ensures
            r.wf(),
            r.sheets_view() == Seq::<AsepriteJSON>::empty(),
            r.instances_view() == Seq::<SpriteState>::empty(),
    {
        let r = SpriteManager { sheets: Vec::new(), names: Vec::new(), instances: Vec::new() };
        assert(r.names_view() =~= Seq::<Seq<char>>::empty());
        r
    }

    /// Adds `sheet` under `name` and returns its index; a sheet added later
    /// under the same name shadows it for new instances. An invalid sheet
    /// is refused.
    pub fn add(&mut self, name: String, sheet: AsepriteJSON) -> (r: Result<usize, ManagerError>)
        requires
            old(self).wf(),
        ensures
            final(self).wf(),
            final(self).instances_view() == old(self).instances_view(),
            sheet.valid() ==> {
                &&& r == Ok::<usize, ManagerError>(old(self).sheets_view().len() as usize)
                &&& final(self).sheets_view() == old(self).sheets_view().push(sheet)
                &&& final(self).names_view() == old(self).names_view().push(name@)
            },
            !sheet.valid() ==> {
                &&& r == Err::<usize, ManagerError>(ManagerError::InvalidSheet)
                &&& final(self).sheets_view() == old(self).sheets_view()
                &&& final(self).names_view() == old(self).names_view()
            },
    {
        if !sheet.is_valid() {
            return Err(ManagerError::InvalidSheet);
        }
        let ghost name_view = name@;
        let ghost added = sheet;
        let r = self.sheets.len();
        self.sheets.push(sheet);
        self.names.push(name);
        proof {
            assert(self.names_view() =~= old(self).names_view().push(name_view));
            assert forall|i: int|
                0 <= i < self.instances_view().len() implies {
                    let st = #[trigger] self.instances_view()[i];
                    &&& st.sprite < self.sheets_view().len()
                    &&& st.wf(self.sheets_view()[st.sprite as int].frames@.len())
                } by {
                let st = self.instances_view()[i];
                assert(self.sheets_view()[st.sprite as int] == old(self).sheets_view()[st.sprite as int]);
            }
        }
        Ok(r)
    }

    /// Adds every sheet of `sprites` in order; stops at the first invalid
    /// one, keeping those added before it.
    pub fn add_sprites(&mut self, sprites: Vec<(String, AsepriteJSON)>) -> (r: Result<(), ManagerError>)
        requires
            old(self).wf(),
        ensures
            final(self).wf(),
            final(self).instances_view() == old(self).instances_view(),
            r is Ok <==> forall|i: int| 0 <= i < sprites@.len() ==> #[trigger] sprites@[i].1.valid(),
            r is Ok ==> final(self).sheets_view() == old(self).sheets_view() + sprites@.map_values(
                |p: (String, AsepriteJSON)| p.1,
            ),
    {
        let mut rest = sprites;
        let ghost all = rest@;
        assert(all == sprites@);
        let n = rest.len();
        let mut k: usize = 0;
        while rest.len() > 0
            invariant
                n == all.len(),
                all == sprites@,
                self.wf(),
                self.instances_view() == old(self).instances_view(),
                k + rest@.len() == all.len(),
                rest@ == all.subrange(k as int, all.len() as int),
                forall|i: int| 0 <= i < k ==> #[trigger] all[i].1.valid(),
                self.sheets_view() == old(self).sheets_view() + all.subrange(0, k as int).map_values(
                    |p: (String, AsepriteJSON)| p.1,
                ),
            decreases rest@.len(),
        {
            let (name, sheet) = rest.remove(0);
            proof {
                assert(sheet == all[k as int].1);
                assert(rest@ =~= all.subrange(k as int + 1, all.len() as int));
            }
            match self.add(name, sheet) {
                Ok(_) => {},
                Err(e) => {
                    assert(!all[k as int].1.valid());
                    assert(!sprites@[k as int].1.valid());
                    return Err(e);
                },
            }
            proof {
                assert(all.subrange(0, k as int + 1).map_values(|p: (String, AsepriteJSON)| p.1)
                    =~= all.subrange(0, k as int).map_values(|p: (String, AsepriteJSON)| p.1).push(all[k as int].1));
            }
            k = k + 1;
        }
        proof {
            assert(all.subrange(0, k as int) =~= all);
        }
        Ok(())
    }

    /// The index of the sheet added last under `name`.
    pub fn find(&self, name: &String) -> (r: Option<usize>)
        ensures
            match r {
                Some(i) => self.latest(name@, i as int),
                None => forall|j: int| 0 <= j < self.names_view().len() ==> #[trigger] self.names_view()[j] != name@,
            },
    {
        let mut k: usize = self.names.len();
        while k > 0
            invariant
                k <= self.names@.len(),
                self.names_view().len() == self.names@.len(),
                forall|j: int| k <= j < self.names@.len() ==> #[trigger] self.names_view()[j] != name@,
            decreases k,
        {
            assert(self.names_view()[k - 1] == self.names@[k - 1]@);
            if self.names[k - 1] == *name {
                return Some(k - 1);
            }
            k = k - 1;
        }
        None
    }

    /// The size the instance `state` draws at: its sheet's first source
    /// image size.
    pub fn query(&self, state: &SpriteState) -> (r: SpriteQuery)
        requires
            self.wf(),
            state.sprite < self.sheets_view().len(),
        ensures
            r.size == ({
                let f = self.sheets_view()[state.sprite as int].frames@[0];
                (f.source_size.w, f.source_size.h)
            }),
    {
        assert(self.sheets_view()[state.sprite as int].valid());
        let meta = &self.sheets[state.sprite].frames[0];
        SpriteQuery { size: (meta.source_size.w, meta.source_size.h) }
    }

    /// Creates an animation instance of the sheet added last under `name`
    /// and returns its handle, sized by the sheet's first frame and drawn at
    /// scale 2.
    pub fn init(&mut self, name: &String) -> (r: Result<SpriteHandle, ManagerError>)
        requires
            old(self).wf(),
        ensures
            final(self).wf(),
            final(self).sheets_view() == old(self).sheets_view(),
            final(self).names_view() == old(self).names_view(),
            match r {
                Ok(h) => {
                    &&& h.index == old(self).instances_view().len()
                    &&& final(self).instances_view().len() == old(self).instances_view().len() + 1
                    &&& final(self).instances_view().subrange(0, h.index as int) == old(self).instances_view()
                    &&& ({
                        let st = final(self).instances_view()[h.index as int];
                        let f = old(self).sheets_view()[st.sprite as int].frames@[0];
                        &&& old(self).latest(name@, st.sprite as int)
                        &&& st.state == InputState::Idle
                        &&& st.tag is None
                        &&& st.frame_i == 0
                        &&& st.time == 0
                        &&& h.width == f.source_size.w
                        &&& h.height == f.source_size.h
                        &&& h.scale == 2
                    })
                },
                Err(e) => {
                    &&& e == ManagerError::UnknownSprite
                    &&& forall|j: int| 0 <= j < old(self).names_view().len() ==> #[trigger] old(self).names_view()[j] != name@
                    &&& final(self).instances_view() == old(self).instances_view()
                },
            },
    {
        match self.find(name) {
            None => Err(ManagerError::UnknownSprite),
            Some(i) => {
                assert(self.sheets_view()[i as int].valid());
                let state = SpriteState::from_sheet(i, &self.sheets[i]);
                let q = self.query(&state);
                let (width, height) = q.size;
                let index = self.instances.len();
                self.instances.push(state);
                proof {
                    assert(self.instances_view().subrange(0, index as int) =~= old(self).instances_view());
                    assert forall|j: int| 0 <= j < self.instances_view().len() implies {
                        let st = #[trigger] self.instances_view()[j];
                        &&& st.sprite < self.sheets_view().len()
                        &&& st.wf(self.sheets_view()[st.sprite as int].frames@.len())
                    } by {
                        if j < index {
                            assert(self.instances_view()[j] == old(self).instances_view()[j]);
                        }
                    }
                }
                Ok(SpriteHandle { index, width, height, scale: 2 })
            },
        }
    }

    /// Hands the input signal, if any, to the instance of `handle`.
    pub fn signal(&mut self, handle: &SpriteHandle, signal: Option<InputState>) -> (r: Result<(), ManagerError>)
        requires
            old(self).wf(),
        ensures
            final(self).wf(),
            final(self).sheets_view() == old(self).sheets_view(),
            final(self).names_view() == old(self).names_view(),
            match signal {
                None => r is Ok && final(self).instances_view() == old(self).instances_view(),
                Some(s) => if handle.index < old(self).instances_view().len() {
                    &&& final(self).instances_view().len() == old(self).instances_view().len()
                    &&& forall|j: int| 0 <= j < old(self).instances_view().len() && j != handle.index
                        ==> #[trigger] final(self).instances_view()[j] == old(self).instances_view()[j]
                    &&& r != Err::<(), ManagerError>(ManagerError::UnknownHandle)
                    &&& SpriteState::acked(
                        old(self).instances_view()[handle.index as int],
                        final(self).instances_view()[handle.index as int],
                        s,
                        match r {
                            Err(ManagerError::Signal(e)) => Err(e),
                            _ => Ok(()),
                        },
                    )
                } else {
                    &&& r == Err::<(), ManagerError>(ManagerError::UnknownHandle)
                    &&& final(self).instances_view() == old(self).instances_view()
                },
            },
    {
        match signal {
            None => Ok(()),
            Some(s) => {
                let i = handle.index;
                if i >= self.instances.len() {
                    return Err(ManagerError::UnknownHandle);
                }
                let ghost pre = self.instances@[i as int];
                let ghost sheets = self.sheets@;
                let result = self.instances[i].ack(s);
                proof {
                    let post = self.instances@[i as int];
                    assert(post.wf(sheets[post.sprite as int].frames@.len())) by {
                        assert(pre.wf(sheets[pre.sprite as int].frames@.len()));
                        assert(sheets[pre.sprite as int].valid());
                    }
                    assert forall|j: int| 0 <= j < self.instances_view().len() implies {
                        let st = #[trigger] self.instances_view()[j];
                        &&& st.sprite < self.sheets_view().len()
                        &&& st.wf(self.sheets_view()[st.sprite as int].frames@.len())
                    } by {
                        if j != i {
                            assert(self.instances_view()[j] == old(self).instances_view()[j]);
                        }
                    }
                }
                match result {
                    Ok(()) => Ok(()),
                    Err(e) => Err(ManagerError::Signal(e)),
                }
            },
        }
    }

    /// Advances the instance of `handle` by `elapsed` microseconds and
    /// returns its sheet index and the frame to draw.
    pub fn next_frame(&mut self, handle: &SpriteHandle, elapsed: u64) -> (r: Result<(usize, usize), ManagerError>)
        requires
            old(self).wf(),
        ensures
            final(self).wf(),
            final(self).sheets_view() == old(self).sheets_view(),
            final(self).names_view() == old(self).names_view(),
            if handle.index < old(self).instances_view().len() {
                let pre = old(self).instances_view()[handle.index as int];
                let post = final(self).instances_view()[handle.index as int];
                &&& final(self).instances_view().len() == old(self).instances_view().len()
                &&& forall|j: int| 0 <= j < old(self).instances_view().len() && j != handle.index
                    ==> #[trigger] final(self).instances_view()[j] == old(self).instances_view()[j]
                &&& SpriteState::advanced(pre, post, old(self).sheets_view()[pre.sprite as int], elapsed)
                &&& r == Ok::<(usize, usize), ManagerError>((pre.sprite, post.frame_i))
            } else {
                &&& r == Err::<(usize, usize), ManagerError>(ManagerError::UnknownHandle)
                &&& final(self).instances_view() == old(self).instances_view()
            },
    {
        let i = handle.index;
        if i >= self.instances.len() {
            return Err(ManagerError::UnknownHandle);
        }
        let sprite = self.instances[i].sprite;
        assert(self.sheets_view()[sprite as int].valid());
        let sheet = &self.sheets[sprite];
        let frame = self.instances[i].next_frame(sheet, elapsed);
        proof {
            assert forall|j: int| 0 <= j < self.instances_view().len() implies {
                let st = #[trigger] self.instances_view()[j];
                &&& st.sprite < self.sheets_view().len()
                &&& st.wf(self.sheets_view()[st.sprite as int].frames@.len())
            } by {
                if j != i {
                    assert(self.instances_view()[j] == old(self).instances_view()[j]);
                }
            }
        }
        Ok((sprite, frame))
    }
}

} // verus!
