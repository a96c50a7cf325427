//! Profiles and their stored form: the fixed profile slots, the `.conf`
//! records, the record of the active profile and the avatar file names.
use vstd::prelude::*;

use crate::name::{
    clean_name_chars, clean_name_spec, lemma_clean_name_shape, name_char_allowed, NAME_MAX,
};
use crate::text::{
    after_prefix, chars_of, copy_string, decimal_digits, is_digit,
    lemma_decimal_digits_shape, lemma_parse_decimal_digits, lemma_split_newlines_nonempty, lines, parse_usize, parse_usize_spec, push_all, push_decimal,
    push_two_digit_decimal, same_chars, split_lines, split_newlines, string_from_chars, strip_prefix_chars,
    is_unicode_whitespace, trim, trim_chars, trim_end, trim_start, two_digit_decimal, views,
};

verus! {

/// Number of profile slots: the default profile and three more.
pub const MAX_PROFILES: usize = 4;

/// Number of avatars to choose from; avatars are numbered from 1.
pub const AVATAR_COUNT: usize = 20;

/// A profile: the slot it occupies (which fixes its id and file), its name
/// and its avatar number.
pub struct Profile {
    pub slot: usize,
    pub name: String,
    pub avatar: usize,
}

/// What a profile holds, as mathematical values.
pub struct ProfileView {
    pub slot: nat,
    pub name: Seq<char>,
    pub avatar: nat,
}

impl View for Profile {
    type V = ProfileView;

    open spec fn view(&self) -> ProfileView {
        ProfileView { slot: self.slot as nat, name: self.name@, avatar: self.avatar as nat }
    }
}

impl Profile {
    /// A copy of this profile.
    pub fn duplicate(&self) -> (p: Profile)
        ensures
            p@ == self@,
    {
        Profile { slot: self.slot, name: copy_string(&self.name), avatar: self.avatar }
    }
}

/// The id of the profile in `slot`.
pub open spec fn profile_id_spec(slot: nat) -> Seq<char> {
    if slot == 0 {
        "default"@
    } else if slot == 1 {
        "profile-1"@
    } else if slot == 2 {
        "profile-2"@
    } else {
        "profile-3"@
    }
}

/// The id of the profile in `slot`.
pub fn profile_id(slot: usize) -> (id: &'static str)
    requires
        slot < MAX_PROFILES,
    ensures
        id@ == profile_id_spec(slot as nat),
{
    if slot == 0 {
        "default"
    } else if slot == 1 {
        "profile-1"
    } else if slot == 2 {
        "profile-2"
    } else {
        "profile-3"
    }
}

/// The four profile ids are different from each other.
pub proof fn lemma_profile_ids_distinct(a: nat, b: nat)
    requires
        a < MAX_PROFILES,
        b < MAX_PROFILES,
        a != b,
    ensures
        profile_id_spec(a) != profile_id_spec(b),
{
    reveal_strlit("default");
    reveal_strlit("profile-1");
    reveal_strlit("profile-2");
    reveal_strlit("profile-3");
    if a > 0 && b > 0 {
        assert(profile_id_spec(a)[8] != profile_id_spec(b)[8]);
    } else {
        assert(profile_id_spec(a).len() != profile_id_spec(b).len());
    }
}

/// The slot whose id is `id`, if any.
pub open spec fn slot_of_id_spec(id: Seq<char>) -> Option<nat> {
    if id == profile_id_spec(0) {
        Some(0)
    } else if id == profile_id_spec(1) {
        Some(1)
    } else if id == profile_id_spec(2) {
        Some(2)
    } else if id == profile_id_spec(3) {
        Some(3)
    } else {
        None
    }
}

/// The slot whose id is `id`, if `id` is a profile id.
pub fn slot_of_id(id: &str) -> (res: Option<usize>)
    ensures
        res matches Some(k) ==> slot_of_id_spec(id@) == Some(k as nat),
        res is None ==> slot_of_id_spec(id@) is None,
{
    let chars = chars_of(id);
    let mut slot: usize = 0;
    while slot < MAX_PROFILES
        invariant
            slot <= MAX_PROFILES,
            chars@ == id@,
            forall|k: nat| k < slot ==> id@ != profile_id_spec(k),
        decreases MAX_PROFILES - slot,
    {
        let candidate = chars_of(profile_id(slot));
        if same_chars(&chars, &candidate) {
            return Some(slot);
        }
        slot = slot + 1;
    }
    None
}

/// The file name of the record of the profile in `slot`.
pub open spec fn profile_file_name_spec(slot: nat) -> Seq<char> {
    profile_id_spec(slot) + ".conf"@
}

/// The file name of the record of the profile in `slot` (`<id>.conf`).
pub fn profile_file_name(slot: usize) -> (res: String)
    requires
        slot < MAX_PROFILES,
    ensures
        res@ == profile_file_name_spec(slot as nat),
{
    let mut v = chars_of(profile_id(slot));
    push_all(&mut v, &chars_of(".conf"));
    string_from_chars(v.as_slice())
}

/// The name a profile in `slot` has when its record names none.
pub open spec fn default_name_spec(slot: nat) -> Seq<char> {
    if slot == 0 {
        "Default Profile"@
    } else {
        "Profile "@ + decimal_digits(slot)
    }
}

/// The name a profile in `slot` has when its record names none:
/// "Default Profile" for the default slot, else "Profile <slot>".
pub fn default_name(slot: usize) -> (res: String)
    ensures
        res@ == default_name_spec(slot as nat),
{
    if slot == 0 {
        "Default Profile".to_owned()
    } else {
        let mut v = chars_of("Profile ");
        push_decimal(slot, &mut v);
        string_from_chars(v.as_slice())
    }
}

/// A fresh profile for `slot`, as it is created from the menu: named
/// "Profile <slot>", with avatar `slot + 1`.
pub open spec fn new_profile_spec(slot: nat) -> ProfileView {
    ProfileView { slot, name: "Profile "@ + decimal_digits(slot), avatar: slot + 1 }
}

/// A fresh profile for `slot`, as it is created from the menu.
pub fn new_profile(slot: usize) -> (p: Profile)
    requires
        slot < MAX_PROFILES,
    ensures
        p@ == new_profile_spec(slot as nat),
{
    let mut v = chars_of("Profile ");
    push_decimal(slot, &mut v);
    Profile { slot, name: string_from_chars(v.as_slice()), avatar: slot + 1 }
}

/// The default profile as it is set up when its record cannot be read: slot
/// 0, "Default Profile", the first avatar.
pub open spec fn default_profile_spec() -> ProfileView {
    ProfileView { slot: 0, name: "Default Profile"@, avatar: 1 }
}

/// The default profile as it is set up when its record cannot be read.
pub fn default_profile() -> (p: Profile)
    ensures
        p@ == default_profile_spec(),
{
    Profile { slot: 0, name: "Default Profile".to_owned(), avatar: 1 }
}

/// Whether some profile sits in slot `s`.
pub open spec fn slot_taken(ps: Seq<ProfileView>, s: nat) -> bool {
    exists|i: int| 0 <= i < ps.len() && (#[trigger] ps[i]).slot == s
}

// ---------------------------------------------------------------------------
// Profile records
// ---------------------------------------------------------------------------

/// `n` limited to the range `lo..=hi`.
pub open spec fn clamp(n: nat, lo: nat, hi: nat) -> nat {
    if n < lo {
        lo
    } else if n > hi {
        hi
    } else {
        n
    }
}

/// The name a record's lines give: the last `name=` line whose value is not
/// empty once tidied, tidied.
pub open spec fn stored_name(ls: Seq<Seq<char>>) -> Option<Seq<char>>
    decreases ls.len(),
{
    if ls.len() == 0 {
        None
    } else {
        match after_prefix(ls.last(), "name="@) {
            Some(v) => if clean_name_spec(v).len() > 0 {
                Some(clean_name_spec(v))
            } else {
                stored_name(ls.drop_last())
            },
            None => stored_name(ls.drop_last()),
        }
    }
}

/// The avatar a record's lines give: from the last `avatar=` line, its number
/// (or `fallback` when it is not one) limited to `1..=AVATAR_COUNT`; `fallback`
/// when there is no such line.
pub open spec fn stored_avatar(ls: Seq<Seq<char>>, fallback: nat) -> nat
    decreases ls.len(),
{
    if ls.len() == 0 {
        fallback
    } else {
        match after_prefix(ls.last(), "avatar="@) {
            Some(v) => clamp(
                match parse_usize_spec(v) {
                    Some(n) => n as nat,
                    None => fallback,
                },
                1,
                AVATAR_COUNT as nat,
            ),
            None => stored_avatar(ls.drop_last(), fallback),
        }
    }
}

/// The profile in `slot` that a record with text `content` describes.
pub open spec fn parse_profile_spec(slot: nat, content: Seq<char>) -> ProfileView {
    let ls = lines(content);
    ProfileView {
        slot,
        name: match stored_name(ls) {
            Some(n) => n,
            None => default_name_spec(slot),
        },
        avatar: stored_avatar(ls, slot + 1),
    }
}

/// The characters of an optional character vector.
pub open spec fn opt_view(o: Option<Vec<char>>) -> Option<Seq<char>> {
    match o {
        Some(v) => Some(v@),
        None => None,
    }
}

/// The profile in `slot` described by the record text `content`: the name
/// from the last `name=` line that is not empty once tidied (else the default
/// name), the avatar from the last `avatar=` line, limited to 1..=20 (else
/// `slot + 1`).
pub fn parse_profile(slot: usize, content: &str) -> (p: Profile)
    requires
        slot < MAX_PROFILES,
    ensures
        p@ == parse_profile_spec(slot as nat, content@),
{
    let ls = split_lines(&chars_of(content));
    let name_key = chars_of("name=");
    let avatar_key = chars_of("avatar=");
    let mut name: Option<Vec<char>> = None;
    let mut avatar: usize = slot + 1;
    let ghost all = views(ls@);
    assert(all.take(0) =~= Seq::<Seq<char>>::empty());
    for i in 0..ls.len()
        invariant
            slot < MAX_PROFILES,
            all == views(ls@),
            all == lines(content@),
            name_key@ == "name="@,
            avatar_key@ == "avatar="@,
            opt_view(name) == stored_name(all.take(i as int)),
            avatar == stored_avatar(all.take(i as int), (slot + 1) as nat),
    {
        let line = &ls[i];
        assert(all.take(i + 1).drop_last() =~= all.take(i as int));
        assert(all.take(i + 1).last() == line@);
        match strip_prefix_chars(line, &name_key) {
            Some(value) => {
                let cleaned = clean_name_chars(&value);
                if cleaned.len() > 0 {
                    name = Some(cleaned);
                }
            },
            None => {},
        }
        match strip_prefix_chars(line, &avatar_key) {
            Some(value) => {
                let n = match parse_usize(&value) {
                    Some(n) => n,
                    None => slot + 1,
                };
                avatar = if n < 1 {
                    1
                } else if n > AVATAR_COUNT {
                    AVATAR_COUNT
                } else {
                    n
                };
            },
            None => {},
        }
    }
    assert(all.take(ls.len() as int) =~= all);
    let name = match name {
        Some(v) => string_from_chars(v.as_slice()),
        None => default_name(slot),
    };
    Profile { slot, name, avatar }
}

/// The text of the record of a profile named `name` with avatar `avatar`.
pub open spec fn record_text(name: Seq<char>, avatar: nat) -> Seq<char> {
    "name="@ + clean_name_spec(name) + seq!['\n'] + "avatar="@ + decimal_digits(avatar) + seq![
        '\n',
    ]
}

/// The text of the record that stores `p`: its tidied name and its avatar,
/// one `key=value` line each.
pub fn profile_record(p: &Profile) -> (res: String)
    ensures
        res@ == record_text(p.name@, p.avatar as nat),
{
    let mut v = chars_of("name=");
    push_all(&mut v, &clean_name_chars(&chars_of(p.name.as_str())));
    v.push('\n');
    push_all(&mut v, &chars_of("avatar="));
    push_decimal(p.avatar, &mut v);
    v.push('\n');
    assert(v@ =~= record_text(p.name@, p.avatar as nat));
    string_from_chars(v.as_slice())
}

proof fn lemma_split_newlines_append(p: Seq<char>, s: Seq<char>)
    requires
        forall|i: int| 0 <= i < s.len() ==> s[i] != '\n',
    ensures
        split_newlines(p + s) == split_newlines(p).update(
            split_newlines(p).len() - 1,
            split_newlines(p).last() + s,
        ),
    decreases s.len(),
{
    lemma_split_newlines_nonempty(p);
    if s.len() == 0 {
        assert(p + s =~= p);
        assert(split_newlines(p).last() + s =~= split_newlines(p).last());
        assert(split_newlines(p).update(split_newlines(p).len() - 1, split_newlines(p).last())
            =~= split_newlines(p));
    } else {
        let s0 = s.drop_last();
        lemma_split_newlines_append(p, s0);
        assert((p + s).drop_last() =~= p + s0);
        assert((p + s).last() == s.last());
        let q = split_newlines(p);
        let r = split_newlines(p + s0);
        assert(r.last() == q.last() + s0);
        assert(r.last().push(s.last()) =~= q.last() + s);
        assert(r.update(r.len() - 1, r.last().push(s.last())) =~= q.update(
            q.len() - 1,
            q.last() + s,
        ));
    }
}

/// Two lines, each ended by a newline, read back as those two lines.
proof fn lemma_two_lines(a: Seq<char>, b: Seq<char>)
    requires
        forall|i: int| 0 <= i < a.len() ==> a[i] != '\n',
        forall|i: int| 0 <= i < b.len() ==> b[i] != '\n',
        a.len() > 0 && a.last() != '\r',
        b.len() > 0 && b.last() != '\r',
    ensures
        lines(a + seq!['\n'] + b + seq!['\n']) == seq![a, b],
{
    let e = Seq::<char>::empty();
    assert(split_newlines(e) == seq![e]);
    lemma_split_newlines_append(e, a);
    assert(e + a =~= a);
    assert(split_newlines(a) =~= seq![a]);
    let a1 = a + seq!['\n'];
    assert(a1.drop_last() =~= a);
    assert(split_newlines(a1) =~= seq![a, e]);
    lemma_split_newlines_append(a1, b);
    assert(split_newlines(a1 + b) =~= seq![a, b]);
    let all = a1 + b + seq!['\n'];
    assert(all.drop_last() =~= a1 + b);
    assert(split_newlines(all) =~= seq![a, b, e]);
    assert(seq![a, b, e].drop_last() =~= seq![a, b]);
    assert(lines(all) =~= seq![a, b]);
}

/// A record read back gives the profile that was stored: the tidied name
/// tidied again (or the default name when that is empty) and the avatar, for
/// an avatar in `1..=AVATAR_COUNT` as the menu keeps them.
pub proof fn lemma_record_round_trip(slot: nat, name: Seq<char>, avatar: usize)
    requires
        1 <= avatar <= AVATAR_COUNT,
    ensures
        parse_profile_spec(slot, record_text(name, avatar as nat)) == (ProfileView {
            slot,
            name: if clean_name_spec(clean_name_spec(name)).len() > 0 {
                clean_name_spec(clean_name_spec(name))
            } else {
                default_name_spec(slot)
            },
            avatar: avatar as nat,
        }),
{
    reveal_strlit("name=");
    reveal_strlit("avatar=");
    let cn = clean_name_spec(name);
    let digits = decimal_digits(avatar as nat);
    let a = "name="@ + cn;
    let b = "avatar="@ + digits;
    crate::name::lemma_clean_name_shape(name);
    lemma_parse_decimal_digits(avatar);
    lemma_decimal_digits_shape(avatar as nat);
    assert forall|i: int| 0 <= i < a.len() implies a[i] != '\n' by {
        if i >= 5 {
            assert(a[i] == cn[i - 5]);
            assert(crate::name::name_char_allowed(cn[i - 5]));
        }
    }
    assert forall|i: int| 0 <= i < b.len() implies b[i] != '\n' by {
        if i >= 7 {
            assert(b[i] == digits[i - 7]);
            assert(is_digit(digits[i - 7]));
        }
    }
    assert(a.last() != '\r') by {
        if cn.len() > 0 {
            assert(a.last() == cn[cn.len() - 1]);
            assert(crate::name::name_char_allowed(cn[cn.len() - 1]));
        }
    }
    assert(b.last() == digits[digits.len() - 1]);
    assert(is_digit(digits[digits.len() - 1]));
    assert(record_text(name, avatar as nat) =~= a + seq!['\n'] + b + seq!['\n']);
    lemma_two_lines(a, b);
    let ls = seq![a, b];
    assert(ls.last() == b);
    assert(ls.drop_last() =~= seq![a]);
    assert(seq![a].last() == a);
    assert(seq![a].drop_last() =~= Seq::<Seq<char>>::empty());
    assert("name="@.is_prefix_of(a));
    assert(a.skip(5) =~= cn);
    assert(!"name="@.is_prefix_of(b)) by {
        assert(b[0] == 'a');
        assert(b.subrange(0, 5)[0] == b[0]);
        assert("name="@[0] == 'n');
    }
    assert("avatar="@.is_prefix_of(b));
    assert(b.skip(7) =~= digits);
    assert(after_prefix(b, "name="@) is None);
    assert(after_prefix(a, "name="@) == Some(cn));
    assert(after_prefix(b, "avatar="@) == Some(digits));
    assert(stored_name(seq![a].drop_last()) is None);
    assert(stored_name(ls) == stored_name(seq![a]));
    assert(stored_avatar(ls, slot + 1) == avatar as nat);
    assert(lines(record_text(name, avatar as nat)) == ls);
}

// ---------------------------------------------------------------------------
// Which profile is active
// ---------------------------------------------------------------------------

/// The id of the active profile, given the text of its record when that
/// could be read: the text trimmed of surrounding whitespace, else "default".
pub open spec fn active_id_spec(content: Option<Seq<char>>) -> Seq<char> {
    match content {
        Some(c) => trim(c),
        None => "default"@,
    }
}

/// The id of the active profile, from the text of its record when that could
/// be read.
pub fn active_profile_id(content: Option<&str>) -> (id: String)
    ensures
        id@ == active_id_spec(
            match content {
                Some(c) => Some(c@),
                None => None,
            },
        ),
{
    match content {
        Some(c) => {
            let t = trim_chars(&chars_of(c));
            string_from_chars(t.as_slice())
        },
        None => "default".to_owned(),
    }
}

/// Why a profile cannot be made the active one.
#[derive(Debug)]
pub enum ProfileError {
    /// The id is none of the profile ids.
    UnknownProfile,
}

/// The text of the record naming `id` as the active profile: the id and a
/// newline; an error when `id` is no profile id.
pub fn active_profile_record(id: &str) -> (res: Result<String, ProfileError>)
    ensures
        slot_of_id_spec(id@) is None <==> res is Err,
        res matches Ok(t) ==> t@ == id@ + seq!['\n'],
{
    match slot_of_id(id) {
        None => Err(ProfileError::UnknownProfile),
        Some(_) => {
            let mut v = chars_of(id);
            v.push('\n');
            Ok(string_from_chars(v.as_slice()))
        },
    }
}

/// Each profile id names its own slot.
pub proof fn lemma_slot_of_profile_id(slot: nat)
    requires
        slot < MAX_PROFILES,
    ensures
        slot_of_id_spec(profile_id_spec(slot)) == Some(slot),
{
    if slot > 0 {
        lemma_profile_ids_distinct(0, slot);
    }
    if slot > 1 {
        lemma_profile_ids_distinct(1, slot);
    }
    if slot > 2 {
        lemma_profile_ids_distinct(2, slot);
    }
}

/// The record naming a profile active reads back as that profile's id, so
/// activating a profile and reading the active profile agree.
pub proof fn lemma_active_record_round_trip(slot: nat)
    requires
        slot < MAX_PROFILES,
    ensures
        active_id_spec(Some(profile_id_spec(slot) + seq!['\n'])) == profile_id_spec(slot),
{
    reveal_strlit("default");
    reveal_strlit("profile-1");
    reveal_strlit("profile-2");
    reveal_strlit("profile-3");
    let id = profile_id_spec(slot);
    let r = id + seq!['\n'];
    assert(!is_unicode_whitespace(r[0]));
    assert(trim_start(r) == r);
    assert(r.drop_last() =~= id);
    assert(!is_unicode_whitespace(id.last()));
    assert(trim_end(r) == trim_end(id));
    assert(trim_end(id) == id);
}

/// The file name of avatar picture `number`.
pub open spec fn avatar_file_name_spec(number: nat) -> Seq<char> {
    "avatar-"@ + two_digit_decimal(number) + ".png"@
}

/// The file name of avatar picture `number`: `avatar-NN.png`, the number
/// written with at least two digits.
pub fn avatar_file_name(number: usize) -> (res: String)
    ensures
        res@ == avatar_file_name_spec(number as nat),
{
    let mut v = chars_of("avatar-");
    push_two_digit_decimal(number, &mut v);
    push_all(&mut v, &chars_of(".png"));
    string_from_chars(v.as_slice())
}

/// The avatar after `avatar` in the cycle 1, 2, ..., 20, 1, ...
pub open spec fn next_avatar_spec(avatar: nat) -> nat {
    avatar % (AVATAR_COUNT as nat) + 1
}

/// The avatar after `avatar` in the cycle 1, 2, ..., 20, 1, ...
pub fn next_avatar(avatar: usize) -> (res: usize)
    ensures
        res == next_avatar_spec(avatar as nat),
        1 <= res <= AVATAR_COUNT,
{
    avatar % AVATAR_COUNT + 1
}

// ---------------------------------------------------------------------------
// Loading all profiles
// ---------------------------------------------------------------------------

/// Whether every character of `s` may stand in a name.
pub open spec fn chars_allowed(s: Seq<char>) -> bool {
    forall|i: int| 0 <= i < s.len() ==> name_char_allowed(#[trigger] s[i])
}

/// Whether `s` could be a profile's name: at most `NAME_MAX` characters, all
/// of them name characters.
pub open spec fn valid_name(s: Seq<char>) -> bool {
    s.len() <= NAME_MAX && chars_allowed(s)
}

/// What a list of profiles always satisfies: at most one profile per slot,
/// listed in slot order, avatars in `1..=AVATAR_COUNT` and names made of the
/// characters a name may hold, at most `NAME_MAX` of them.
pub open spec fn profiles_wf(ps: Seq<ProfileView>) -> bool {
    &&& ps.len() <= MAX_PROFILES
    &&& forall|i: int| 0 <= i < ps.len() ==> (#[trigger] ps[i]).slot < MAX_PROFILES
    &&& forall|i: int, j: int| 0 <= i < j < ps.len() ==> (#[trigger] ps[i]).slot < (#[trigger] ps[j]).slot
    &&& forall|i: int| 0 <= i < ps.len() ==> 1 <= (#[trigger] ps[i]).avatar <= AVATAR_COUNT
    &&& forall|i: int| 0 <= i < ps.len() ==> valid_name((#[trigger] ps[i]).name)
}

/// Default names are valid names.
pub proof fn lemma_default_name_allowed(slot: nat)
    requires
        slot < MAX_PROFILES,
    ensures
        valid_name(default_name_spec(slot)),
{
    reveal_strlit("Default Profile");
    reveal_strlit("Profile ");
    if slot != 0 {
        lemma_decimal_digits_shape(slot);
        let d = decimal_digits(slot);
        let n = default_name_spec(slot);
        assert forall|i: int| 0 <= i < n.len() implies name_char_allowed(#[trigger] n[i]) by {
            if i >= 8 {
                assert(n[i] == d[i - 8]);
                assert(is_digit(d[i - 8]));
            }
        }
    }
}

proof fn lemma_stored_name_allowed(ls: Seq<Seq<char>>)
    ensures
        stored_name(ls) matches Some(n) ==> valid_name(n),
    decreases ls.len(),
{
    if ls.len() > 0 {
        lemma_stored_name_allowed(ls.drop_last());
        match after_prefix(ls.last(), "name="@) {
            Some(v) => {
                lemma_clean_name_shape(v);
            },
            None => {},
        }
    }
}

proof fn lemma_stored_avatar_range(ls: Seq<Seq<char>>, fallback: nat)
    requires
        1 <= fallback <= AVATAR_COUNT,
    ensures
        1 <= stored_avatar(ls, fallback) <= AVATAR_COUNT,
    decreases ls.len(),
{
    if ls.len() > 0 {
        lemma_stored_avatar_range(ls.drop_last(), fallback);
    }
}

/// The profiles described by the slot records are well formed, and each sits
/// in a slot that has a record.
pub proof fn lemma_loaded_profiles_wf(records: Seq<Option<Seq<char>>>)
    requires
        records.len() <= MAX_PROFILES,
    ensures
        profiles_wf(loaded_profiles_spec(records)),
        loaded_profiles_spec(records).len() <= records.len(),
        forall|i: int|
            0 <= i < loaded_profiles_spec(records).len() ==> (#[trigger] loaded_profiles_spec(
                records,
            )[i]).slot < records.len() && records[loaded_profiles_spec(records)[i].slot as int]
                is Some,
        records.len() > 0 && records[0] is Some ==> loaded_profiles_spec(records).len() > 0
            && loaded_profiles_spec(records)[0].slot == 0,
    decreases records.len(),
{
    if records.len() > 0 {
        let rest = records.drop_last();
        lemma_loaded_profiles_wf(rest);
        assert forall|i: int| 0 <= i < rest.len() implies rest[i] == records[i] by {}
        match records.last() {
            Some(c) => {
                let slot = (records.len() - 1) as nat;
                let p = parse_profile_spec(slot, c);
                lemma_default_name_allowed(slot);
                lemma_stored_name_allowed(lines(c));
                lemma_stored_avatar_range(lines(c), slot + 1);
                assert(valid_name(p.name));
                assert(1 <= p.avatar <= AVATAR_COUNT);
                let before = loaded_profiles_spec(rest);
                let all = before.push(p);
                assert(all == loaded_profiles_spec(records));
                assert forall|i: int, j: int| 0 <= i < j < all.len() implies (#[trigger] all[i]).slot
                    < (#[trigger] all[j]).slot by {
                    if j < before.len() {
                        assert(all[i] == before[i] && all[j] == before[j]);
                    } else {
                        assert(all[i] == before[i]);
                    }
                }
                assert forall|i: int| 0 <= i < all.len() implies valid_name((#[trigger] all[i]).name)
                    && 1 <= all[i].avatar <= AVATAR_COUNT && all[i].slot < records.len()
                    && records[all[i].slot as int] is Some by {
                    if i < before.len() {
                        assert(all[i] == before[i]);
                    }
                }
                if records[0] is Some && records.len() > 1 {
                    assert(all[0] == before[0]);
                }
            },
            None => {},
        }
    }
}

/// The profiles that the records of the slots describe, in slot order; a slot
/// whose record could not be read has none.
pub open spec fn loaded_profiles_spec(records: Seq<Option<Seq<char>>>) -> Seq<ProfileView>
    decreases records.len(),
{
    if records.len() == 0 {
        Seq::empty()
    } else {
        let before = loaded_profiles_spec(records.drop_last());
        match records.last() {
            Some(c) => before.push(parse_profile_spec((records.len() - 1) as nat, c)),
            None => before,
        }
    }
}

/// The texts of optional strings.
pub open spec fn opt_string_views(v: Seq<Option<String>>) -> Seq<Option<Seq<char>>> {
    v.map_values(
        |o: Option<String>|
            match o {
                Some(s) => Some(s@),
                None => None,
            },
    )
}

/// The views of a sequence of profiles.
pub open spec fn profile_views(v: Seq<Profile>) -> Seq<ProfileView> {
    v.map_values(|p: Profile| p@)
}

/// Whether the default profile has no readable record, so that it is set up
/// anew.
pub open spec fn default_is_new(records: Seq<Option<Seq<char>>>) -> bool {
    records.len() == 0 || records[0] is None
}

/// The profiles to offer: the default profile and the others whose records
/// could be read, in slot order; the default profile is set up anew when its
/// own record could not be read.
pub open spec fn offered_profiles_spec(records: Seq<Option<Seq<char>>>) -> Seq<ProfileView> {
    if default_is_new(records) {
        seq![default_profile_spec()] + loaded_profiles_spec(records)
    } else {
        loaded_profiles_spec(records)
    }
}

/// The profiles to offer, given the record text of each slot (`None` where
/// it could not be read): the default profile always, then the profiles the
/// other records describe, in slot order; and `true` when the default profile
/// was set up anew and is to be stored.
pub fn profiles_from_records(records: &Vec<Option<String>>) -> (res: (Vec<Profile>, bool))
    requires
        records.len() <= MAX_PROFILES,
    ensures
        res.1 == default_is_new(opt_string_views(records@)),
        profile_views(res.0@) == offered_profiles_spec(opt_string_views(records@)),
        profiles_wf(profile_views(res.0@)),
        slot_taken(profile_views(res.0@), 0),
{
    let ghost rv = opt_string_views(records@);
    let is_new = records.len() == 0 || records[0].is_none();
    let mut out: Vec<Profile> = Vec::new();
    if is_new {
        out.push(default_profile());
    }
    let ghost start = profile_views(out@);
    assert(start =~= (if is_new {
        seq![default_profile_spec()]
    } else {
        Seq::<ProfileView>::empty()
    }));
    assert(rv.take(0) =~= Seq::<Option<Seq<char>>>::empty());
    assert(start + loaded_profiles_spec(rv.take(0)) =~= start);
    for i in 0..records.len()
        invariant
            records.len() <= MAX_PROFILES,
            rv == opt_string_views(records@),
            profile_views(out@) == start + loaded_profiles_spec(rv.take(i as int)),
    {
        assert(rv.take(i + 1).drop_last() =~= rv.take(i as int));
        assert(rv.take(i + 1).len() - 1 == i);
        match &records[i] {
            Some(c) => {
                let p = parse_profile(i, c.as_str());
                let ghost before = out@;
                out.push(p);
                assert(profile_views(out@) =~= profile_views(before).push(p@));
                assert(start + loaded_profiles_spec(rv.take(i + 1)) =~= (start
                    + loaded_profiles_spec(rv.take(i as int))).push(p@));
            },
            None => {},
        }
    }
    assert(rv.take(records.len() as int) =~= rv);
    proof {
        lemma_loaded_profiles_wf(rv);
        let loaded = loaded_profiles_spec(rv);
        let all = profile_views(out@);
        assert(all == offered_profiles_spec(rv));
        if is_new {
            reveal_strlit("Default Profile");
            assert(valid_name(default_profile_spec().name));
            assert forall|i: int| 0 <= i < loaded.len() implies (#[trigger] loaded[i]).slot
                >= 1 by {
                if loaded[i].slot == 0 {
                    assert(rv[0] is Some);
                }
            }
            assert(all[0] == default_profile_spec());
            assert forall|i: int, j: int| 0 <= i < j < all.len() implies (#[trigger] all[i]).slot
                < (#[trigger] all[j]).slot by {
                assert(all[j] == loaded[j - 1]);
                if i > 0 {
                    assert(all[i] == loaded[i - 1]);
                }
            }
            assert forall|i: int| 0 <= i < all.len() implies valid_name((#[trigger] all[i]).name)
                && 1 <= all[i].avatar <= AVATAR_COUNT && all[i].slot < MAX_PROFILES by {
                if i > 0 {
                    assert(all[i] == loaded[i - 1]);
                }
            }
            assert(all.len() <= MAX_PROFILES) by {
                if all.len() > MAX_PROFILES {
                    assert(loaded.len() >= MAX_PROFILES);
                    assert(loaded[0].slot >= 1);
                    assert(loaded[0].slot < loaded[1].slot);
                    assert(loaded[1].slot < loaded[2].slot);
                    assert(loaded[2].slot < loaded[3].slot);
                    assert(loaded[3].slot < MAX_PROFILES);
                }
            }
            assert(all[0].slot == 0);
        } else {
            assert(all[0].slot == 0);
        }
    }
    (out, is_new)
}

} // verus!
