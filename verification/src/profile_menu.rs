//! The profile chooser: what each frame's controls do to the list of
//! profiles, the selection, the on-screen keyboard for renaming and the
//! status message. Storing records and activating a profile are left to the
//! caller, which is told what to do through `Step` and `Effect`.
use vstd::prelude::*;

use crate::input::{just_add, just_down, just_left, just_right, just_up, Input};
use crate::name::{clean_name_chars, clean_name_spec};
use crate::profile::{
    new_profile, new_profile_spec, next_avatar, next_avatar_spec, profile_views, profiles_wf,
    slot_of_id, slot_of_id_spec, slot_taken, valid_name, Profile, ProfileView, AVATAR_COUNT,
    MAX_PROFILES,
};
use crate::text::{chars_of, decimal_digits, sat_sub, string_from_chars};

verus! {

/// Number of keys on the on-screen keyboard.
pub const KEY_COUNT: usize = 43;

/// Number of keys in a row of the on-screen keyboard.
pub const KEY_COLUMNS: usize = 9;

/// The longest name the on-screen keyboard lets one type, in characters.
pub const TYPED_MAX: usize = 20;

/// What a key of the on-screen keyboard does.
#[derive(Debug, PartialEq, Eq, Structural, Clone, Copy)]
pub enum KeyboardKey {
    /// Types this character.
    Char(char),
    /// Types a space.
    Space,
    /// Deletes the last character.
    Back,
    /// Deletes everything typed.
    Clear,
    /// Saves the typed name and closes the keyboard.
    Done,
    /// Closes the keyboard.
    Cancel,
}

/// The key at `index` on the on-screen keyboard: the letters A to Z, the
/// digits 0 to 9, SPACE, `-`, `_`, BACK, CLEAR, DONE and CANCEL.
pub open spec fn keyboard_key_spec(index: nat) -> KeyboardKey {
    if index < 26 {
        KeyboardKey::Char(('A' as int + index) as char)
    } else if index < 36 {
        KeyboardKey::Char(('0' as int + (index - 26)) as char)
    } else if index == 36 {
        KeyboardKey::Space
    } else if index == 37 {
        KeyboardKey::Char('-')
    } else if index == 38 {
        KeyboardKey::Char('_')
    } else if index == 39 {
        KeyboardKey::Back
    } else if index == 40 {
        KeyboardKey::Clear
    } else if index == 41 {
        KeyboardKey::Done
    } else {
        KeyboardKey::Cancel
    }
}

/// The key at `index` on the on-screen keyboard.
pub fn keyboard_key(index: usize) -> (k: KeyboardKey)
    requires
        index < KEY_COUNT,
    ensures
        k == keyboard_key_spec(index as nat),
{
    if index < 26 {
        let code = 65u8 + index as u8;
        KeyboardKey::Char(code as char)
    } else if index < 36 {
        let code = 48u8 + (index - 26) as u8;
        KeyboardKey::Char(code as char)
    } else if index == 36 {
        KeyboardKey::Space
    } else if index == 37 {
        KeyboardKey::Char('-')
    } else if index == 38 {
        KeyboardKey::Char('_')
    } else if index == 39 {
        KeyboardKey::Back
    } else if index == 40 {
        KeyboardKey::Clear
    } else if index == 41 {
        KeyboardKey::Done
    } else {
        KeyboardKey::Cancel
    }
}

/// The label shown on a key.
pub open spec fn key_label_spec(key: KeyboardKey) -> Seq<char> {
    match key {
        KeyboardKey::Char(c) => seq![c],
        KeyboardKey::Space => "SPACE"@,
        KeyboardKey::Back => "BACK"@,
        KeyboardKey::Clear => "CLEAR"@,
        KeyboardKey::Done => "DONE"@,
        KeyboardKey::Cancel => "CANCEL"@,
    }
}

/// The label shown on the key at `index`.
pub fn keyboard_label(index: usize) -> (label: String)
    requires
        index < KEY_COUNT,
    ensures
        label@ == key_label_spec(keyboard_key_spec(index as nat)),
{
    match keyboard_key(index) {
        KeyboardKey::Char(c) => {
            let mut v: Vec<char> = Vec::new();
            v.push(c);
            string_from_chars(v.as_slice())
        },
        KeyboardKey::Space => "SPACE".to_owned(),
        KeyboardKey::Back => "BACK".to_owned(),
        KeyboardKey::Clear => "CLEAR".to_owned(),
        KeyboardKey::Done => "DONE".to_owned(),
        KeyboardKey::Cancel => "CANCEL".to_owned(),
    }
}

/// The status line under the profile cards.
#[derive(Debug, PartialEq, Eq, Structural, Clone, Copy)]
pub enum Message {
    Nothing,
    NameSaved,
    Created,
    CouldNotActivate,
    Removed,
}

/// The text of a status message.
pub open spec fn message_text_spec(m: Message) -> Seq<char> {
    match m {
        Message::Nothing => Seq::empty(),
        Message::NameSaved => "PROFILE NAME SAVED"@,
        Message::Created => "PROFILE CREATED"@,
        Message::CouldNotActivate => "COULD NOT ACTIVATE PROFILE"@,
        Message::Removed => "PROFILE REMOVED; SAVES WERE KEPT"@,
    }
}

impl Message {
    /// The text to show; empty for no message.
    pub fn text(&self) -> (t: String)
        ensures
            t@ == message_text_spec(*self),
    {
        match self {
            Message::Nothing => String::new(),
            Message::NameSaved => "PROFILE NAME SAVED".to_owned(),
            Message::Created => "PROFILE CREATED".to_owned(),
            Message::CouldNotActivate => "COULD NOT ACTIVATE PROFILE".to_owned(),
            Message::Removed => "PROFILE REMOVED; SAVES WERE KEPT".to_owned(),
        }
    }
}

/// The on-screen keyboard: the name typed so far and the key under the cursor.
pub struct KeyboardState {
    pub value: Vec<char>,
    pub key_index: usize,
}

impl KeyboardState {
    /// The name typed so far.
    pub fn text(&self) -> (t: String)
        ensures
            t@ == self.value@,
    {
        string_from_chars(self.value.as_slice())
    }

    /// What the keyboard shows once a frame with `input` is taken: the typed
    /// name after the key under the moved cursor is pressed (when accept is),
    /// and the moved cursor; shown also on the frame that closes it.
    pub fn after_input(&self, input: &Input) -> (shown: (String, usize))
        requires
            self.key_index < KEY_COUNT,
        ensures
            shown.1 == move_key(self.key_index as nat, *input),
            shown.0@ == (if input.accept {
                edit_value(self.value@, keyboard_key_spec(shown.1 as nat))
            } else {
                self.value@
            }),
    {
        let k = move_key_exec(self.key_index, input);
        let mut value = sub_chars_all(&self.value);
        if input.accept {
            type_key(&mut value, keyboard_key(k));
        }
        (string_from_chars(value.as_slice()), k)
    }
}

/// A copy of `v`.
fn sub_chars_all(v: &Vec<char>) -> (w: Vec<char>)
    ensures
        w@ == v@,
{
    let w = crate::text::sub_chars(v, 0, v.len());
    assert(v@.subrange(0, v@.len() as int) =~= v@);
    w
}

/// Presses `key` on the typed name `value`.
fn type_key(value: &mut Vec<char>, key: KeyboardKey)
    ensures
        final(value)@ == edit_value(old(value)@, key),
{
    match key {
        KeyboardKey::Char(c) => {
            if value.len() < TYPED_MAX {
                value.push(c);
            }
        },
        KeyboardKey::Space => {
            if value.len() < TYPED_MAX {
                value.push(' ');
            }
        },
        KeyboardKey::Back => {
            if value.len() > 0 {
                value.pop();
            }
        },
        KeyboardKey::Clear => {
            value.clear();
        },
        _ => {},
    }
}

/// Something the caller is to do with the outside world; what comes of it
/// does not change the menu.
pub enum Effect {
    /// Store the record of this profile.
    Store(Profile),
    /// Move the record of the profile in this slot out of the way.
    Archive(usize),
}

/// An effect, as mathematical values.
pub enum EffectView {
    Store(ProfileView),
    Archive(nat),
}

impl View for Effect {
    type V = EffectView;

    open spec fn view(&self) -> EffectView {
        match self {
            Effect::Store(p) => EffectView::Store(p@),
            Effect::Archive(s) => EffectView::Archive(*s as nat),
        }
    }
}

/// The views of a sequence of effects.
pub open spec fn effect_views(v: Seq<Effect>) -> Seq<EffectView> {
    v.map_values(|e: Effect| e@)
}

/// What a frame asks of the caller.
pub enum Step {
    /// Carry out these effects, in order.
    Effects(Vec<Effect>),
    /// Store the record of this new profile; when that works, call
    /// `ProfileMenu::created` with it.
    Create(Profile),
    /// Make the profile in this slot the active one and leave the menu; when
    /// that fails, call `ProfileMenu::activation_failed` with the same input.
    Activate(usize),
}

/// A step, as mathematical values.
pub enum StepView {
    Effects(Seq<EffectView>),
    Create(ProfileView),
    Activate(nat),
}

impl View for Step {
    type V = StepView;

    open spec fn view(&self) -> StepView {
        match self {
            Step::Effects(v) => StepView::Effects(effect_views(v@)),
            Step::Create(p) => StepView::Create(p@),
            Step::Activate(s) => StepView::Activate(*s as nat),
        }
    }
}

/// The profile chooser.
pub struct ProfileMenu {
    pub profiles: Vec<Profile>,
    pub selected: usize,
    pub keyboard: Option<KeyboardState>,
    pub message: Message,
}

/// The profile chooser, as mathematical values.
pub struct MenuView {
    pub profiles: Seq<ProfileView>,
    pub selected: nat,
    pub keyboard: Option<(Seq<char>, nat)>,
    pub message: Message,
}

impl View for ProfileMenu {
    type V = MenuView;

    open spec fn view(&self) -> MenuView {
        MenuView {
            profiles: profile_views(self.profiles@),
            selected: self.selected as nat,
            keyboard: match self.keyboard {
                Some(k) => Some((k.value@, k.key_index as nat)),
                None => None,
            },
            message: self.message,
        }
    }
}

/// The number of cards shown: one per profile, and an "add" card while a
/// slot is free.
pub open spec fn item_count(len: nat) -> nat {
    if len < MAX_PROFILES {
        len + 1
    } else {
        len
    }
}

/// The smaller of `a` and `b`.
pub open spec fn min_nat(a: nat, b: nat) -> nat {
    if a <= b {
        a
    } else {
        b
    }
}

/// What the menu always satisfies: well-formed profiles among which is the
/// default profile, a selected card that exists, and, while the keyboard is
/// open, a key on it, a typed name that is a valid name (so its length in
/// bytes is its length in characters), and a selected profile.
pub open spec fn menu_wf(m: MenuView) -> bool {
    &&& profiles_wf(m.profiles)
    &&& slot_taken(m.profiles, 0)
    &&& m.selected < item_count(m.profiles.len())
    &&& match m.keyboard {
        Some((v, k)) => k < KEY_COUNT && valid_name(v) && m.selected < m.profiles.len(),
        None => true,
    }
}

/// The first slot that no profile sits in.
pub open spec fn first_free_slot(ps: Seq<ProfileView>) -> Option<nat> {
    if !slot_taken(ps, 0) {
        Some(0)
    } else if !slot_taken(ps, 1) {
        Some(1)
    } else if !slot_taken(ps, 2) {
        Some(2)
    } else if !slot_taken(ps, 3) {
        Some(3)
    } else {
        None
    }
}

/// The card selected after the left, right and add controls.
pub open spec fn navigate(selected: nat, len: nat, input: Input) -> nat {
    let s1 = if input.left && selected > 0 {
        (selected - 1) as nat
    } else {
        selected
    };
    let s2 = if input.right && s1 + 1 < item_count(len) {
        s1 + 1
    } else {
        s1
    };
    if input.add && len < MAX_PROFILES {
        len
    } else {
        s2
    }
}

/// The keyboard key under the cursor after the four direction controls: left
/// and right move by one, up and down by a row, stopping at the ends.
pub open spec fn move_key(k: nat, input: Input) -> nat {
    let last = (KEY_COUNT - 1) as nat;
    let k1 = if input.left {
        sat_sub(k, 1)
    } else {
        k
    };
    let k2 = if input.right {
        min_nat(k1 + 1, last)
    } else {
        k1
    };
    let k3 = if input.up {
        sat_sub(k2, KEY_COLUMNS as nat)
    } else {
        k2
    };
    if input.down {
        min_nat(k3 + KEY_COLUMNS as nat, last)
    } else {
        k3
    }
}

/// The typed name after pressing `key`.
pub open spec fn edit_value(v: Seq<char>, key: KeyboardKey) -> Seq<char> {
    match key {
        KeyboardKey::Char(c) => if v.len() < TYPED_MAX {
            v.push(c)
        } else {
            v
        },
        KeyboardKey::Space => if v.len() < TYPED_MAX {
            v.push(' ')
        } else {
            v
        },
        KeyboardKey::Back => if v.len() > 0 {
            v.drop_last()
        } else {
            v
        },
        KeyboardKey::Clear => Seq::empty(),
        _ => v,
    }
}

/// A frame while the keyboard is open: the cursor moves, the key under it is
/// pressed when accept is; DONE with a name that is not empty once tidied
/// renames the selected profile to it, stores it and says so; DONE, CANCEL
/// and back close the keyboard.
pub open spec fn keyboard_frame(m: MenuView, input: Input) -> (MenuView, Seq<EffectView>) {
    let v = m.keyboard.unwrap().0;
    let k = move_key(m.keyboard.unwrap().1, input);
    let key = keyboard_key_spec(k);
    let name = clean_name_spec(v);
    let commit = input.accept && key == KeyboardKey::Done && name.len() > 0;
    let close = input.back || (input.accept && (key == KeyboardKey::Done || key
        == KeyboardKey::Cancel));
    let typed = if input.accept {
        edit_value(v, key)
    } else {
        v
    };
    let old_p = m.profiles[m.selected as int];
    let renamed = ProfileView { slot: old_p.slot, name, avatar: old_p.avatar };
    let profiles = if commit {
        m.profiles.update(m.selected as int, renamed)
    } else {
        m.profiles
    };
    (
        MenuView {
            profiles,
            selected: m.selected,
            keyboard: if close {
                None
            } else {
                Some((typed, k))
            },
            message: if commit {
                Message::NameSaved
            } else {
                m.message
            },
        },
        if commit {
            seq![EffectView::Store(renamed)]
        } else {
            Seq::empty()
        },
    )
}

/// What the rename, avatar and delete controls do to the selected profile:
/// rename opens the keyboard on its name; avatar moves it to the next avatar
/// and stores it; delete removes it (never the default profile), has its
/// record moved away, keeps the selection on a card that exists, and says so.
pub open spec fn edit_frame(m: MenuView, input: Input) -> (MenuView, Seq<EffectView>) {
    let sel = m.selected as int;
    let ps = m.profiles;
    let keyboard = if input.rename {
        Some((ps[sel].name, 0nat))
    } else {
        m.keyboard
    };
    let changed = ProfileView {
        slot: ps[sel].slot,
        name: ps[sel].name,
        avatar: next_avatar_spec(ps[sel].avatar),
    };
    let ps1 = if input.avatar {
        ps.update(sel, changed)
    } else {
        ps
    };
    let e1 = if input.avatar {
        seq![EffectView::Store(changed)]
    } else {
        Seq::empty()
    };
    if input.delete && ps1[sel].slot != 0 {
        let ps2 = ps1.remove(sel);
        (
            MenuView {
                profiles: ps2,
                selected: min_nat(m.selected, sat_sub(ps2.len(), 1)),
                keyboard,
                message: Message::Removed,
            },
            e1.push(EffectView::Archive(ps1[sel].slot)),
        )
    } else {
        (MenuView { profiles: ps1, selected: m.selected, keyboard, message: m.message }, e1)
    }
}

/// What one frame does, and what it asks of the caller. With the keyboard
/// open, see `keyboard_frame`. Otherwise the selection moves; accept on the
/// "add" card asks to create a profile in the first free slot; accept or back
/// on a profile asks to activate it; else the profile is edited (see
/// `edit_frame`).
pub open spec fn frame(m: MenuView, input: Input) -> (MenuView, StepView) {
    if m.keyboard is Some {
        let r = keyboard_frame(m, input);
        (r.0, StepView::Effects(r.1))
    } else {
        let len = m.profiles.len();
        let n = MenuView { selected: navigate(m.selected, len, input), ..m };
        if n.selected == len && len < MAX_PROFILES && input.accept {
            match first_free_slot(m.profiles) {
                Some(s) => (n, StepView::Create(new_profile_spec(s))),
                None => (n, StepView::Effects(Seq::empty())),
            }
        } else if n.selected < len {
            if input.accept || input.back {
                (n, StepView::Activate(m.profiles[n.selected as int].slot))
            } else {
                let r = edit_frame(n, input);
                (r.0, StepView::Effects(r.1))
            }
        } else {
            (n, StepView::Effects(Seq::empty()))
        }
    }
}

/// The card first selected: the profile whose id is `active`, else the first.
pub open spec fn initial_selection_ok(ps: Seq<ProfileView>, active: Seq<char>, selected: nat) -> bool {
    match slot_of_id_spec(active) {
        Some(s) => if slot_taken(ps, s) {
            selected < ps.len() && ps[selected as int].slot == s
        } else {
            selected == 0
        },
        None => selected == 0,
    }
}

impl ProfileMenu {
    /// The chooser over `profiles`, with the profile whose id is `active_id`
    /// selected (the first card when there is none), the keyboard closed and
    /// no message.
    pub fn new(profiles: Vec<Profile>, active_id: &str) -> (m: ProfileMenu)
        requires
            profiles_wf(profile_views(profiles@)),
            slot_taken(profile_views(profiles@), 0),
        ensures
            m@.profiles == profile_views(profiles@),
            initial_selection_ok(m@.profiles, active_id@, m@.selected),
            m@.keyboard is None,
            m@.message == Message::Nothing,
            menu_wf(m@),
    {
        let mut selected: usize = 0;
        let ghost ps = profile_views(profiles@);
        match slot_of_id(active_id) {
            Some(s) => {
                let mut i: usize = 0;
                while i < profiles.len() && profiles[i].slot != s
                    invariant
                        i <= profiles.len(),
                        ps == profile_views(profiles@),
                        forall|j: int| 0 <= j < i ==> ps[j].slot != s,
                    decreases profiles.len() - i,
                {
                    i = i + 1;
                }
                if i < profiles.len() {
                    selected = i;
                }
                proof {
                    if slot_taken(ps, s as nat) {
                        let w = choose|j: int| 0 <= j < ps.len() && (#[trigger] ps[j]).slot == s;
                        assert(ps[w].slot == s);
                        assert(i < profiles.len());
                        assert(ps[i as int].slot == s);
                    }
                    if i < profiles.len() {
                        assert(ps[i as int].slot == s);
                        assert(slot_taken(ps, s as nat));
                    }
                }
            },
            None => {},
        }
        assert(selected < item_count(ps.len()));
        ProfileMenu { profiles, selected, keyboard: None, message: Message::Nothing }
    }

    /// Takes one frame of input; see `frame` for what it does and asks.
    pub fn step(&mut self, input: &Input) -> (res: Step)
        requires
            menu_wf(old(self)@),
        ensures
            (final(self)@, res@) == frame(old(self)@, *input),
            menu_wf(final(self)@),
            res matches Step::Activate(s) ==> final(self).selected < final(self).profiles.len()
                && s == final(self).profiles@[final(self).selected as int].slot,
            res matches Step::Create(p) ==> !slot_taken(old(self)@.profiles, p.slot as nat) && (
            forall|t: nat| t < p.slot ==> slot_taken(old(self)@.profiles, t)),
            res matches Step::Effects(es) ==> archives_removed(
                old(self)@.profiles,
                final(self)@.profiles,
                effect_views(es@),
            ),
            old(self)@.keyboard is Some ==> only_names_changed(
                old(self)@.profiles,
                final(self)@.profiles,
            ),
            old(self)@.keyboard is Some ==> (res matches Step::Effects(es) && stores_selected(
                final(self)@.profiles,
                old(self)@.selected,
                effect_views(es@),
            )),
    {
        proof {
            lemma_frame_laws(old(self)@, *input);
        }
        if self.keyboard.is_some() {
            let effects = self.keyboard_step(input);
            return Step::Effects(effects);
        }
        let len = self.profiles.len();
        let count = if len < MAX_PROFILES {
            len + 1
        } else {
            len
        };
        if input.left && self.selected > 0 {
            self.selected = self.selected - 1;
        }
        if input.right && self.selected + 1 < count {
            self.selected = self.selected + 1;
        }
        if input.add && len < MAX_PROFILES {
            self.selected = len;
        }
        assert(self@ == MenuView { selected: navigate(old(self)@.selected, len as nat, *input), ..old(self)@ });
        let none: Vec<Effect> = Vec::new();
        assert(effect_views(none@) =~= Seq::<EffectView>::empty());
        if self.selected == len && len < MAX_PROFILES && input.accept {
            match self.free_slot() {
                Some(s) => Step::Create(new_profile(s)),
                None => Step::Effects(none),
            }
        } else if self.selected < len {
            if input.accept || input.back {
                Step::Activate(self.profiles[self.selected].slot)
            } else {
                let effects = self.edit_selected(input);
                Step::Effects(effects)
            }
        } else {
            Step::Effects(none)
        }
    }

    /// After `Step::Activate` could not be carried out: says so, then applies
    /// the rest of the frame's controls to the selected profile (see
    /// `edit_frame`).
    pub fn activation_failed(&mut self, input: &Input) -> (effects: Vec<Effect>)
        requires
            menu_wf(old(self)@),
            old(self)@.keyboard is None,
            old(self)@.selected < old(self)@.profiles.len(),
        ensures
            (final(self)@, effect_views(effects@)) == edit_frame(
                MenuView { message: Message::CouldNotActivate, ..old(self)@ },
                *input,
            ),
            menu_wf(final(self)@),
            archives_removed(old(self)@.profiles, final(self)@.profiles, effect_views(effects@)),
            forall|k: int|
                0 <= k < effects.len() ==> (#[trigger] effect_views(effects@)[k] matches EffectView::Archive(
                    s,
                ) ==> s == old(self)@.profiles[old(self)@.selected as int].slot),
    {
        proof {
            lemma_edit_frame_effects(
                MenuView { message: Message::CouldNotActivate, ..old(self)@ },
                *input,
            );
        }
        self.message = Message::CouldNotActivate;
        self.edit_selected(input)
    }

    /// After the record of a profile asked for by `Step::Create` was stored:
    /// adds it among the profiles in slot order, selects it and says so.
    pub fn created(&mut self, profile: Profile)
        requires
            menu_wf(old(self)@),
            old(self)@.keyboard is None,
            first_free_slot(old(self)@.profiles) == Some(profile.slot as nat),
            profile@ == new_profile_spec(profile.slot as nat),
        ensures
            final(self)@.selected <= old(self)@.profiles.len(),
            final(self)@.profiles == old(self)@.profiles.insert(
                final(self)@.selected as int,
                profile@,
            ),
            forall|j: int|
                0 <= j < final(self)@.selected ==> old(self)@.profiles[j].slot < profile.slot,
            forall|j: int|
                final(self)@.selected <= j < old(self)@.profiles.len() ==> old(self)@.profiles[j].slot
                    > profile.slot,
            final(self)@.keyboard is None,
            final(self)@.message == Message::Created,
            menu_wf(final(self)@),
    {
        let ghost ps = self@.profiles;
        let mut k: usize = 0;
        while k < self.profiles.len() && self.profiles[k].slot < profile.slot
            invariant
                k <= self.profiles.len(),
                ps == profile_views(self.profiles@),
                forall|j: int| 0 <= j < k ==> ps[j].slot < profile.slot,
            decreases self.profiles.len() - k,
        {
            k = k + 1;
        }
        proof {
            assert forall|j: int| k <= j < ps.len() implies ps[j].slot > profile.slot by {
                assert(ps[k as int].slot >= profile.slot);
                if ps[j].slot == profile.slot {
                    assert(slot_taken(ps, profile.slot as nat));
                }
                if j > k {
                    assert(ps[k as int].slot < ps[j].slot);
                }
                if ps[k as int].slot == profile.slot {
                    assert(slot_taken(ps, profile.slot as nat));
                }
            }
            assert(ps.len() < MAX_PROFILES) by {
                if ps.len() >= MAX_PROFILES {
                    lemma_four_profiles_fill_slots(ps);
                }
            }
        }
        let ghost pv = profile@;
        self.profiles.insert(k, profile);
        assert(profile_views(self.profiles@) =~= ps.insert(k as int, pv));
        self.selected = k;
        self.message = Message::Created;
        proof {
            let ns = ps.insert(k as int, pv);
            lemma_new_profile_name_valid(pv.slot);
            let w = choose|i: int| 0 <= i < ps.len() && (#[trigger] ps[i]).slot == 0;
            if w < k {
                assert(ns[w] == ps[w]);
            } else {
                assert(ns[w + 1] == ps[w]);
            }
            assert forall|i: int, j: int| 0 <= i < j < ns.len() implies (#[trigger] ns[i]).slot
                < (#[trigger] ns[j]).slot by {
                if j < k {
                    assert(ns[i] == ps[i] && ns[j] == ps[j]);
                } else if j == k {
                    assert(ns[i] == ps[i]);
                } else if i < k {
                    assert(ns[i] == ps[i] && ns[j] == ps[j - 1]);
                } else if i == k {
                    assert(ns[j] == ps[j - 1]);
                } else {
                    assert(ns[i] == ps[i - 1] && ns[j] == ps[j - 1]);
                }
            }
            assert forall|i: int| 0 <= i < ns.len() implies (#[trigger] ns[i]).slot < MAX_PROFILES
                && 1 <= ns[i].avatar <= AVATAR_COUNT && valid_name(ns[i].name) by {
                if i < k {
                    assert(ns[i] == ps[i]);
                } else if i > k {
                    assert(ns[i] == ps[i - 1]);
                }
            }
        }
    }

    /// The first slot no profile sits in.
    fn free_slot(&self) -> (res: Option<usize>)
        ensures
            match res {
                Some(s) => first_free_slot(self@.profiles) == Some(s as nat),
                None => first_free_slot(self@.profiles) is None,
            },
    {
        let ghost ps = self@.profiles;
        let mut s: usize = 0;
        while s < MAX_PROFILES
            invariant
                s <= MAX_PROFILES,
                ps == self@.profiles,
                forall|t: nat| t < s ==> slot_taken(ps, t),
            decreases MAX_PROFILES - s,
        {
            let mut i: usize = 0;
            let mut taken = false;
            while i < self.profiles.len()
                invariant
                    i <= self.profiles.len(),
                    ps == profile_views(self.profiles@),
                    taken ==> slot_taken(ps, s as nat),
                    !taken ==> forall|j: int| 0 <= j < i ==> ps[j].slot != s,
                decreases self.profiles.len() - i,
            {
                if self.profiles[i].slot == s {
                    assert(ps[i as int].slot == s);
                    taken = true;
                }
                i = i + 1;
            }
            if !taken {
                return Some(s);
            }
            s = s + 1;
        }
        None
    }

    /// The rename, avatar and delete controls on the selected profile.
    fn edit_selected(&mut self, input: &Input) -> (effects: Vec<Effect>)
        requires
            profiles_wf(old(self)@.profiles),
            slot_taken(old(self)@.profiles, 0),
            old(self)@.selected < old(self)@.profiles.len(),
            match old(self)@.keyboard {
                Some((v, k)) => k < KEY_COUNT && valid_name(v),
                None => true,
            },
        ensures
            (final(self)@, effect_views(effects@)) == edit_frame(old(self)@, *input),
            menu_wf(final(self)@),
    {
        let ghost m = self@;
        let sel = self.selected;
        let mut effects: Vec<Effect> = Vec::new();
        if input.rename {
            let value = chars_of(self.profiles[sel].name.as_str());
            self.keyboard = Some(KeyboardState { value, key_index: 0 });
        }
        if input.avatar {
            let stored = bump_avatar(&mut self.profiles, sel);
            effects.push(Effect::Store(stored));
        }
        let ghost ps1 = self@.profiles;
        let ghost e1 = effect_views(effects@);
        if input.delete && self.profiles[sel].slot != 0 {
            let removed_slot = remove_at(&mut self.profiles, sel);
            effects.push(Effect::Archive(removed_slot));
            let len = self.profiles.len();
            let last = if len > 0 {
                len - 1
            } else {
                0
            };
            self.selected = if sel < last {
                sel
            } else {
                last
            };
            self.message = Message::Removed;
            assert(effect_views(effects@) =~= e1.push(EffectView::Archive(removed_slot as nat)));
        }
        proof {
            let w = choose|i: int| 0 <= i < m.profiles.len() && (#[trigger] m.profiles[i]).slot
                == 0;
            lemma_edit_keeps_default(m, *input, w);
        }
        effects
    }

    /// A frame with the keyboard open.
    fn keyboard_step(&mut self, input: &Input) -> (effects: Vec<Effect>)
        requires
            menu_wf(old(self)@),
            old(self)@.keyboard is Some,
        ensures
            (final(self)@, effect_views(effects@)) == keyboard_frame(old(self)@, *input),
            menu_wf(final(self)@),
    {
        let ghost m = self@;
        let kb = self.keyboard.take().unwrap();
        let mut value = kb.value;
        let k = move_key_exec(kb.key_index, input);
        let key = keyboard_key(k);
        let mut close = input.back;
        let mut effects: Vec<Effect> = Vec::new();
        let ghost v0 = value@;
        if input.accept {
            type_key(&mut value, key);
            match key {
                KeyboardKey::Done => {
                    let name = clean_name_chars(&value);
                    if name.len() > 0 {
                        let sel = self.selected;
                        let old_p = &self.profiles[sel];
                        let renamed = Profile {
                            slot: old_p.slot,
                            name: string_from_chars(name.as_slice()),
                            avatar: old_p.avatar,
                        };
                        let stored = renamed.duplicate();
                        self.profiles.set(sel, renamed);
                        effects.push(Effect::Store(stored));
                        self.message = Message::NameSaved;
                    }
                    close = true;
                },
                KeyboardKey::Cancel => {
                    close = true;
                },
                _ => {},
            }
        }
        if !close {
            self.keyboard = Some(KeyboardState { value, key_index: k });
        }
        proof {
            let r = keyboard_frame(m, *input);
            assert(effect_views(effects@) =~= r.1);
            assert(self@.profiles =~= r.0.profiles);
            lemma_typed_allowed(v0, keyboard_key_spec(k as nat));
            let ps = self@.profiles;
            assert forall|i: int| 0 <= i < ps.len() implies (#[trigger] ps[i]).slot == m.profiles[i].slot
                && ps[i].avatar == m.profiles[i].avatar && valid_name(ps[i].name) by {
                if i != m.selected || !(input.accept && keyboard_key_spec(k as nat)
                    == KeyboardKey::Done && clean_name_spec(v0).len() > 0) {
                    assert(ps[i] == m.profiles[i]);
                } else {
                    crate::name::lemma_clean_name_shape(v0);
                }
            }
            let w = choose|i: int| 0 <= i < m.profiles.len() && (#[trigger] m.profiles[i]).slot
                == 0;
            assert(ps[w].slot == 0);
        }
        effects
    }
}

/// Moves the profile at `sel` to its next avatar; gives a copy of it.
fn bump_avatar(profiles: &mut Vec<Profile>, sel: usize) -> (stored: Profile)
    requires
        profiles_wf(profile_views(old(profiles)@)),
        sel < old(profiles).len(),
    ensures
        stored@ == (ProfileView {
            slot: old(profiles)@[sel as int]@.slot,
            name: old(profiles)@[sel as int]@.name,
            avatar: next_avatar_spec(old(profiles)@[sel as int]@.avatar),
        }),
        profile_views(final(profiles)@) == profile_views(old(profiles)@).update(sel as int, stored@),
        profiles_wf(profile_views(final(profiles)@)),
{
    let ghost ps = profile_views(profiles@);
    let old_p = &profiles[sel];
    let changed = Profile {
        slot: old_p.slot,
        name: old_p.name.clone(),
        avatar: next_avatar(old_p.avatar),
    };
    let stored = changed.duplicate();
    profiles.set(sel, changed);
    assert(profile_views(profiles@) =~= ps.update(sel as int, stored@));
    proof {
        lemma_wf_update(ps, sel as int, stored@);
    }
    stored
}

/// Removes the profile at `sel`; gives its slot.
fn remove_at(profiles: &mut Vec<Profile>, sel: usize) -> (slot: usize)
    requires
        profiles_wf(profile_views(old(profiles)@)),
        sel < old(profiles).len(),
    ensures
        slot == old(profiles)@[sel as int].slot,
        profile_views(final(profiles)@) == profile_views(old(profiles)@).remove(sel as int),
        profiles_wf(profile_views(final(profiles)@)),
{
    let ghost ps = profile_views(profiles@);
    let removed = profiles.remove(sel);
    assert(profile_views(profiles@) =~= ps.remove(sel as int));
    proof {
        lemma_wf_remove(ps, sel as int);
    }
    removed.slot
}

/// Replacing a profile by one in the same slot with a valid avatar and name
/// keeps the list well formed.
proof fn lemma_wf_update(ps: Seq<ProfileView>, i: int, p: ProfileView)
    requires
        profiles_wf(ps),
        0 <= i < ps.len(),
        p.slot == ps[i].slot,
        1 <= p.avatar <= AVATAR_COUNT,
        valid_name(p.name),
    ensures
        profiles_wf(ps.update(i, p)),
{
    let u = ps.update(i, p);
    assert forall|a: int, b: int| 0 <= a < b < u.len() implies (#[trigger] u[a]).slot < (
    #[trigger] u[b]).slot by {
        assert(u[a].slot == ps[a].slot && u[b].slot == ps[b].slot);
    }
    assert forall|a: int| 0 <= a < u.len() implies (#[trigger] u[a]).slot < MAX_PROFILES && 1
        <= u[a].avatar <= AVATAR_COUNT && valid_name(u[a].name) by {
        if a != i {
            assert(u[a] == ps[a]);
        }
    }
}

/// Removing a profile keeps the list well formed.
proof fn lemma_wf_remove(ps: Seq<ProfileView>, i: int)
    requires
        profiles_wf(ps),
        0 <= i < ps.len(),
    ensures
        profiles_wf(ps.remove(i)),
{
    let r = ps.remove(i);
    assert forall|a: int, b: int| 0 <= a < b < r.len() implies (#[trigger] r[a]).slot < (
    #[trigger] r[b]).slot by {
        let a0 = if a < i {
            a
        } else {
            a + 1
        };
        let b0 = if b < i {
            b
        } else {
            b + 1
        };
        assert(r[a] == ps[a0] && r[b] == ps[b0]);
    }
    assert forall|a: int| 0 <= a < r.len() implies (#[trigger] r[a]).slot < MAX_PROFILES && 1
        <= r[a].avatar <= AVATAR_COUNT && valid_name(r[a].name) by {
        if a < i {
            assert(r[a] == ps[a]);
        } else {
            assert(r[a] == ps[a + 1]);
        }
    }
}

/// The keyboard cursor after the direction controls.
fn move_key_exec(k: usize, input: &Input) -> (res: usize)
    requires
        k < KEY_COUNT,
    ensures
        res == move_key(k as nat, *input),
        res < KEY_COUNT,
{
    let last = KEY_COUNT - 1;
    let mut k = k;
    if input.left {
        k = if k >= 1 {
            k - 1
        } else {
            0
        };
    }
    if input.right {
        k = if k + 1 <= last {
            k + 1
        } else {
            last
        };
    }
    if input.up {
        k = if k >= KEY_COLUMNS {
            k - KEY_COLUMNS
        } else {
            0
        };
    }
    if input.down {
        k = if k + KEY_COLUMNS <= last {
            k + KEY_COLUMNS
        } else {
            last
        };
    }
    k
}

proof fn lemma_typed_allowed(v: Seq<char>, key: KeyboardKey)
    requires
        valid_name(v),
        exists|i: nat| i < KEY_COUNT && key == keyboard_key_spec(i),
    ensures
        valid_name(edit_value(v, key)),
{
    let i = choose|i: nat| i < KEY_COUNT && key == keyboard_key_spec(i);
    let t = edit_value(v, key);
    assert forall|j: int| 0 <= j < t.len() implies crate::name::name_char_allowed(#[trigger] t[j]) by {
        if j < v.len() {
            assert(t[j] == v[j]);
        }
    }
}

proof fn lemma_new_profile_name_valid(slot: nat)
    requires
        slot < MAX_PROFILES,
    ensures
        valid_name(new_profile_spec(slot).name),
{
    reveal_strlit("Profile ");
    let d = decimal_digits(slot);
    assert(d =~= seq![crate::text::digit_char(slot)]);
}

/// Four well-formed profiles take all four slots.
proof fn lemma_four_profiles_fill_slots(ps: Seq<ProfileView>)
    requires
        profiles_wf(ps),
        ps.len() >= MAX_PROFILES,
    ensures
        first_free_slot(ps) is None,
{
    assert(ps[0].slot < ps[1].slot);
    assert(ps[1].slot < ps[2].slot);
    assert(ps[2].slot < ps[3].slot);
    assert(ps[3].slot < MAX_PROFILES);
    assert(ps[0].slot == 0);
    assert(slot_taken(ps, 0));
    assert(ps[1].slot == 1);
    assert(slot_taken(ps, 1));
    assert(ps[2].slot == 2);
    assert(slot_taken(ps, 2));
    assert(ps[3].slot == 3);
    assert(slot_taken(ps, 3));
}

/// With all four slots taken there are four profiles.
proof fn lemma_full_slots_taken(ps: Seq<ProfileView>)
    requires
        profiles_wf(ps),
        slot_taken(ps, 0),
        slot_taken(ps, 1),
        slot_taken(ps, 2),
        slot_taken(ps, 3),
    ensures
        ps.len() >= MAX_PROFILES,
{
    let i0 = choose|i: int| 0 <= i < ps.len() && (#[trigger] ps[i]).slot == 0;
    let i1 = choose|i: int| 0 <= i < ps.len() && (#[trigger] ps[i]).slot == 1;
    let i2 = choose|i: int| 0 <= i < ps.len() && (#[trigger] ps[i]).slot == 2;
    let i3 = choose|i: int| 0 <= i < ps.len() && (#[trigger] ps[i]).slot == 3;
    assert(i0 < i1) by {
        if i1 <= i0 {
            if i1 < i0 {
                assert(ps[i1].slot < ps[i0].slot);
            }
        }
    }
    assert(i1 < i2) by {
        if i2 <= i1 {
            if i2 < i1 {
                assert(ps[i2].slot < ps[i1].slot);
            }
        }
    }
    assert(i2 < i3) by {
        if i3 <= i2 {
            if i3 < i2 {
                assert(ps[i3].slot < ps[i2].slot);
            }
        }
    }
}

/// While fewer than four profiles exist, some slot is free, so "add profile"
/// always has a slot to create the profile in.
pub proof fn lemma_free_slot_when_room(ps: Seq<ProfileView>)
    requires
        profiles_wf(ps),
        ps.len() < MAX_PROFILES,
    ensures
        first_free_slot(ps) is Some,
{
    if first_free_slot(ps) is None {
        lemma_full_slots_taken(ps);
    }
}

/// No frame removes the default profile: if it is there before a frame (or
/// before the edits that follow a failed activation), it is there after.
pub proof fn lemma_default_profile_kept(m: MenuView, input: Input)
    requires
        menu_wf(m),
    ensures
        slot_taken(frame(m, input).0.profiles, 0),
        m.keyboard is None && m.selected < m.profiles.len() ==> slot_taken(
            edit_frame(MenuView { message: Message::CouldNotActivate, ..m }, input).0.profiles,
            0,
        ),
{
    let w = choose|i: int| 0 <= i < m.profiles.len() && (#[trigger] m.profiles[i]).slot == 0;
    if m.keyboard is Some {
        let ps = frame(m, input).0.profiles;
        assert(ps[w].slot == 0);
    } else {
        let n = MenuView { selected: navigate(m.selected, m.profiles.len(), input), ..m };
        if n.selected < m.profiles.len() {
            lemma_edit_keeps_default(n, input, w);
        }
    }
    if m.keyboard is None && m.selected < m.profiles.len() {
        lemma_edit_keeps_default(MenuView { message: Message::CouldNotActivate, ..m }, input, w);
    }
}

proof fn lemma_edit_keeps_default(m: MenuView, input: Input, w: int)
    requires
        m.selected < m.profiles.len(),
        0 <= w < m.profiles.len(),
        m.profiles[w].slot == 0,
    ensures
        slot_taken(edit_frame(m, input).0.profiles, 0),
{
    let sel = m.selected as int;
    let ps = m.profiles;
    let changed = ProfileView {
        slot: ps[sel].slot,
        name: ps[sel].name,
        avatar: next_avatar_spec(ps[sel].avatar),
    };
    let ps1 = if input.avatar {
        ps.update(sel, changed)
    } else {
        ps
    };
    assert(ps1[w].slot == 0);
    let out = edit_frame(m, input).0.profiles;
    if input.delete && ps1[sel].slot != 0 {
        assert(w != sel);
        if w < sel {
            assert(out[w] == ps1[w]);
        } else {
            assert(out[w - 1] == ps1[w]);
        }
    } else {
        assert(out[w] == ps1[w]);
    }
}

/// Whether every `Archive` effect in `es` names the slot of a profile other
/// than the default one that was listed before and is gone after, one
/// profile fewer.
pub open spec fn archives_removed(
    before: Seq<ProfileView>,
    after: Seq<ProfileView>,
    es: Seq<EffectView>,
) -> bool {
    forall|k: int|
        0 <= k < es.len() ==> (#[trigger] es[k] matches EffectView::Archive(s) ==> s != 0
            && slot_taken(before, s) && !slot_taken(after, s) && after.len() + 1 == before.len())
}

/// Whether `after` differs from `before` at most in the names: the same
/// slots with the same avatars, in the same places.
pub open spec fn only_names_changed(before: Seq<ProfileView>, after: Seq<ProfileView>) -> bool {
    &&& after.len() == before.len()
    &&& forall|i: int|
        0 <= i < after.len() ==> (#[trigger] after[i]).slot == before[i].slot && after[i].avatar
            == before[i].avatar
}

/// Whether every `Store` effect in `es` stores the profile at place `sel` of
/// `after`.
pub open spec fn stores_selected(after: Seq<ProfileView>, sel: nat, es: Seq<EffectView>) -> bool {
    forall|k: int|
        0 <= k < es.len() ==> (#[trigger] es[k] matches EffectView::Store(p) ==> sel
            < after.len() && p == after[sel as int])
}

/// Removing a profile from a well-formed list removes its slot from it.
proof fn lemma_removed_slot_gone(ps: Seq<ProfileView>, i: int)
    requires
        profiles_wf(ps),
        0 <= i < ps.len(),
    ensures
        !slot_taken(ps.remove(i), ps[i].slot),
        slot_taken(ps, ps[i].slot),
{
    let r = ps.remove(i);
    if slot_taken(r, ps[i].slot) {
        let j = choose|j: int| 0 <= j < r.len() && (#[trigger] r[j]).slot == ps[i].slot;
        if j < i {
            assert(r[j] == ps[j]);
        } else {
            assert(r[j] == ps[j + 1]);
        }
    }
}

/// What the edits of a frame do: deleting archives the record of exactly the
/// profile that was selected (never the default one) and removes it from the
/// list; every other effect stores a profile in the slot of the selected one,
/// with its name unchanged.
pub proof fn lemma_edit_frame_effects(m: MenuView, input: Input)
    requires
        profiles_wf(m.profiles),
        m.selected < m.profiles.len(),
    ensures
        archives_removed(m.profiles, edit_frame(m, input).0.profiles, edit_frame(m, input).1),
        forall|k: int|
            0 <= k < edit_frame(m, input).1.len() ==> (#[trigger] edit_frame(m, input).1[k] matches EffectView::Archive(
                s,
            ) ==> s == m.profiles[m.selected as int].slot),
        forall|k: int|
            0 <= k < edit_frame(m, input).1.len() ==> (#[trigger] edit_frame(m, input).1[k] matches EffectView::Store(
                p,
            ) ==> p.slot == m.profiles[m.selected as int].slot && p.name == m.profiles[m.selected as int].name),
{
    let sel = m.selected as int;
    let r = edit_frame(m, input);
    let ps = m.profiles;
    let changed = ProfileView {
        slot: ps[sel].slot,
        name: ps[sel].name,
        avatar: next_avatar_spec(ps[sel].avatar),
    };
    let ps1 = if input.avatar {
        ps.update(sel, changed)
    } else {
        ps
    };
    if input.avatar {
        lemma_wf_update_slots(ps, sel, changed);
    }
    if input.delete && ps1[sel].slot != 0 {
        lemma_removed_slot_gone(ps1, sel);
        assert(slot_taken(ps, ps1[sel].slot)) by {
            assert(ps[sel].slot == ps1[sel].slot);
        }
    }
}

/// Changing a profile's avatar keeps the list's slots, so it stays well formed.
proof fn lemma_wf_update_slots(ps: Seq<ProfileView>, i: int, p: ProfileView)
    requires
        profiles_wf(ps),
        0 <= i < ps.len(),
        p.slot == ps[i].slot,
    ensures
        profiles_wf(ps.update(i, p)) || !(1 <= p.avatar <= AVATAR_COUNT && valid_name(p.name)),
        forall|j: int| 0 <= j < ps.len() ==> (#[trigger] ps.update(i, p)[j]).slot == ps[j].slot,
{
    if 1 <= p.avatar <= AVATAR_COUNT && valid_name(p.name) {
        lemma_wf_update(ps, i, p);
    }
}

/// What a frame does, stated over its inputs and results:
/// - asking to activate names the slot of the profile on the selected card
///   (so its id is that profile's id), and changes no profile;
/// - asking to create names a slot no profile sits in, all lower slots being
///   taken, with a fresh profile "Profile <slot>" and avatar `slot + 1`;
/// - an archived record is that of a profile, never the default one, that
///   the frame removed from the list;
/// - with the keyboard open, only the selected profile's name can change, and
///   a stored profile is the selected one as it is after the frame.
pub proof fn lemma_frame_laws(m: MenuView, input: Input)
    requires
        menu_wf(m),
    ensures
        frame(m, input).1 matches StepView::Activate(s) ==> frame(m, input).0.selected
            < frame(m, input).0.profiles.len() && s == frame(m, input).0.profiles[frame(
            m,
            input,
        ).0.selected as int].slot && frame(m, input).0.profiles == m.profiles,
        frame(m, input).1 matches StepView::Create(p) ==> p.slot < MAX_PROFILES && !slot_taken(
            m.profiles,
            p.slot,
        ) && (forall|t: nat| t < p.slot ==> slot_taken(m.profiles, t)) && p.avatar == p.slot + 1
            && p.name == "Profile "@ + decimal_digits(p.slot) && frame(m, input).0.profiles
            == m.profiles,
        frame(m, input).1 matches StepView::Effects(es) ==> archives_removed(
            m.profiles,
            frame(m, input).0.profiles,
            es,
        ),
        m.keyboard is Some ==> only_names_changed(m.profiles, frame(m, input).0.profiles)
            && frame(m, input).0.selected == m.selected,
        m.keyboard is Some ==> (frame(m, input).1 matches StepView::Effects(es) && stores_selected(
            frame(m, input).0.profiles,
            m.selected,
            es,
        )),
{
    if m.keyboard is Some {
        let r = keyboard_frame(m, input);
        assert(only_names_changed(m.profiles, r.0.profiles));
    } else {
        let len = m.profiles.len();
        let n = MenuView { selected: navigate(m.selected, len, input), ..m };
        if n.selected == len && len < MAX_PROFILES && input.accept {
        } else if n.selected < len {
            if !(input.accept || input.back) {
                lemma_edit_frame_effects(n, input);
            }
        }
    }
}

/// How the cards are chosen: left moves back one card and right forward one
/// while there is a card there; add jumps to the "add" card while a slot is
/// free; in a frame they act in that order, each as it acts alone.
pub proof fn lemma_navigate_laws(selected: nat, len: nat, input: Input)
    ensures
        navigate(selected, len, just_left(input)) == (if input.left && selected > 0 {
            selected - 1
        } else {
            selected as int
        }),
        navigate(selected, len, just_right(input)) == (if input.right && selected + 1
            < item_count(len) {
            selected + 1int
        } else {
            selected as int
        }),
        navigate(selected, len, just_add(input)) == (if input.add && len < MAX_PROFILES {
            len as int
        } else {
            selected as int
        }),
        navigate(selected, len, input) == navigate(
            navigate(navigate(selected, len, just_left(input)), len, just_right(input)),
            len,
            just_add(input),
        ),
{
}

/// How the keyboard cursor moves: left and right by one key, up and down by
/// a row of `KEY_COLUMNS` keys, never past the first or the last key; in a
/// frame they act in that order, each as it acts alone.
pub proof fn lemma_move_key_laws(k: nat, input: Input)
    ensures
        move_key(k, just_left(input)) == (if input.left && k > 0 {
            k - 1
        } else {
            k as int
        }),
        move_key(k, just_right(input)) == (if input.right {
            if k + 1 < KEY_COUNT {
                k + 1int
            } else {
                KEY_COUNT - 1
            }
        } else {
            k as int
        }),
        move_key(k, just_up(input)) == (if input.up {
            if k >= KEY_COLUMNS {
                k - KEY_COLUMNS
            } else {
                0
            }
        } else {
            k as int
        }),
        move_key(k, just_down(input)) == (if input.down {
            if k + KEY_COLUMNS < KEY_COUNT {
                k + KEY_COLUMNS as int
            } else {
                KEY_COUNT - 1
            }
        } else {
            k as int
        }),
        move_key(k, input) == move_key(
            move_key(
                move_key(move_key(k, just_left(input)), just_right(input)),
                just_up(input),
            ),
            just_down(input),
        ),
{
}

/// The avatar control alone changes only the selected profile, and only its
/// avatar, to the next one in the cycle, and stores the changed profile.
pub proof fn lemma_avatar_edit(m: MenuView, input: Input)
    requires
        m.selected < m.profiles.len(),
        input.avatar,
        !input.delete,
    ensures
        edit_frame(m, input).0.profiles.len() == m.profiles.len(),
        forall|i: int|
            0 <= i < m.profiles.len() && i != m.selected ==> #[trigger] edit_frame(
                m,
                input,
            ).0.profiles[i] == m.profiles[i],
        edit_frame(m, input).0.profiles[m.selected as int].slot == m.profiles[m.selected as int].slot,
        edit_frame(m, input).0.profiles[m.selected as int].name == m.profiles[m.selected as int].name,
        edit_frame(m, input).0.profiles[m.selected as int].avatar == next_avatar_spec(
            m.profiles[m.selected as int].avatar,
        ),
        edit_frame(m, input).1 == seq![
            EffectView::Store(edit_frame(m, input).0.profiles[m.selected as int]),
        ],
{
}

/// Typing on the keyboard never changes what was typed before except by
/// BACK (the last character) and CLEAR (everything), and never goes past
/// `TYPED_MAX` characters by typing.
pub proof fn lemma_typing_laws(v: Seq<char>, key: KeyboardKey)
    ensures
        key != KeyboardKey::Back && key != KeyboardKey::Clear ==> v.is_prefix_of(
            edit_value(v, key),
        ),
        edit_value(v, key).len() <= v.len() + 1,
        v.len() <= TYPED_MAX ==> edit_value(v, key).len() <= TYPED_MAX,
        key == KeyboardKey::Back && v.len() > 0 ==> edit_value(v, key) == v.drop_last(),
        key == KeyboardKey::Clear ==> edit_value(v, key).len() == 0,
        key matches KeyboardKey::Char(c) ==> (v.len() < TYPED_MAX ==> edit_value(v, key).last()
            == c && edit_value(v, key).len() == v.len() + 1),
        (key == KeyboardKey::Space && v.len() < TYPED_MAX) ==> edit_value(v, key).last() == ' '
            && edit_value(v, key).len() == v.len() + 1,
{
    assert(v.push(' ').subrange(0, v.len() as int) =~= v);
    if let KeyboardKey::Char(c) = key {
        assert(v.push(c).subrange(0, v.len() as int) =~= v);
    }
    assert(v.subrange(0, v.len() as int) =~= v);
}

} // verus!
