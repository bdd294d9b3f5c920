//! The game side: which build of the mod loader runs, where its files live,
//! its load order and its settings.
use vstd::prelude::*;
use crate::net::DownloadProgress;
use crate::paths::{join_path, joined_path};

verus! {

pub const NIGHTLY_SUBPATH: &'static str = "nightly";

pub const PLAY_SUBPATH: &'static str = "playlunky";

pub const STABLE_SUBPATH: &'static str = "stable";

pub const LOAD_ORDER_SUBPATH: &'static str = "Mods\\Packs\\load_order.txt";

pub const PLAYLUNKY_CONFIG_SUBPATH: &'static str = "playlunky.ini";

/// Failure of a game-side operation.
#[derive(Clone, Debug, PartialEq, Eq)]
pub enum Error {
    BrokenChannel(String),
    Io(String),
    Toml(String),
    UnknownError(String),
}

/// Which build of the mod loader to run.
#[derive(Clone, Debug, PartialEq, Eq)]
pub enum Version {
    /// A build in a directory of the user's choice.
    Local(String),
    Nightly,
    Stable,
}

#[derive(Clone, Debug, PartialEq, Eq)]
pub enum Event {
    Waiting,
    Starting,
    Downloading(DownloadProgress),
    Running,
    Finished,
}

/// One entry of the load order: a mod and whether it is enabled.
#[derive(Clone, Debug, PartialEq, Eq)]
pub struct LoadMod {
    pub enabled: bool,
    pub id: String,
}

/// The directory that holds the loader build `name` under the manager's path.
pub open spec fn play_dir_of(ml2_path: Seq<char>, name: Seq<char>) -> Seq<char> {
    joined_path(joined_path(ml2_path, PLAY_SUBPATH@), name)
}

pub fn ml2_play_dir(ml2_path: &str, name: &str) -> (r: String)
    ensures
        r@ == play_dir_of(ml2_path@, name@),
{
    let base = join_path(ml2_path, PLAY_SUBPATH);
    join_path(base.as_str(), name)
}

/// The loader executable's location for a game install.
pub struct Binary {
    pub install_dir: String,
    pub play_dir: String,
}

impl Binary {
    pub fn new(install_dir: &str, ml2_path: &str, ver: Version) -> (r: Self)
        ensures
            r.install_dir@ == install_dir@,
            r.play_dir@ == match ver {
                Version::Local(p) => p@,
                Version::Nightly => play_dir_of(ml2_path@, NIGHTLY_SUBPATH@),
                Version::Stable => play_dir_of(ml2_path@, STABLE_SUBPATH@),
            },
    {
        let play_dir = match ver {
            Version::Local(path) => path,
            Version::Nightly => ml2_play_dir(ml2_path, NIGHTLY_SUBPATH),
            Version::Stable => ml2_play_dir(ml2_path, STABLE_SUBPATH),
        };
        Binary { install_dir: String::from_str(install_dir), play_dir }
    }
}

/// The loader's settings file of a game install.
pub struct Playlunky {
    pub path: String,
}

impl Playlunky {
    pub fn new(install_dir: &str) -> (r: Self)
        ensures
            r.path@ == joined_path(install_dir@, PLAYLUNKY_CONFIG_SUBPATH@),
    {
        Playlunky { path: join_path(install_dir, PLAYLUNKY_CONFIG_SUBPATH) }
    }
}

/// The load order file of a game install.
pub struct LoadOrder {
    pub path: String,
}

impl LoadOrder {
    pub fn new(install_dir: &str) -> (r: Self)
        ensures
            r.path@ == joined_path(install_dir@, LOAD_ORDER_SUBPATH@),
    {
        LoadOrder { path: join_path(install_dir, LOAD_ORDER_SUBPATH) }
    }
}

/// The lines of a text, as a line reader yields them: split at each `\n`,
/// with no empty line after a final `\n`. `cur` is the line read so far.
pub open spec fn lines_from(s: Seq<char>, cur: Seq<char>) -> Seq<Seq<char>>
    decreases s.len(),
{
    if s.len() == 0 {
        if cur.len() == 0 {
            Seq::empty()
        } else {
            seq![cur]
        }
    } else if s[0] == '\n' {
        seq![cur] + lines_from(s.drop_first(), Seq::empty())
    } else {
        lines_from(s.drop_first(), cur.push(s[0]))
    }
}

/// A line without the `\r` of a CRLF ending.
pub open spec fn without_cr(l: Seq<char>) -> Seq<char> {
    if l.len() > 0 && l.last() == '\r' {
        l.drop_last()
    } else {
        l
    }
}

pub open spec fn lines_of(s: Seq<char>) -> Seq<Seq<char>> {
    lines_from(s, Seq::empty()).map_values(|l: Seq<char>| without_cr(l))
}

/// A line that starts with `--` names a disabled mod.
pub open spec fn is_disabled_line(l: Seq<char>) -> bool {
    l.len() >= 2 && l[0] == '-' && l[1] == '-'
}

pub open spec fn line_id(l: Seq<char>) -> Seq<char> {
    if is_disabled_line(l) {
        l.subrange(2, l.len() as int)
    } else {
        l
    }
}

/// The entry that a line of the load order file stands for.
pub open spec fn entry_of_line(m: LoadMod, l: Seq<char>) -> bool {
    m.enabled == !is_disabled_line(l) && m.id@ == line_id(l)
}

/// The line that an entry is written as.
pub open spec fn line_of_entry(enabled: bool, id: Seq<char>) -> Seq<char> {
    if enabled {
        id
    } else {
        "--"@ + id
    }
}

/// The text of a whole load order, one line per entry.
pub open spec fn load_order_text(order: Seq<LoadMod>) -> Seq<char>
    decreases order.len(),
{
    if order.len() == 0 {
        Seq::empty()
    } else {
        load_order_text(order.drop_last()) + line_of_entry(order.last().enabled, order.last().id@)
            + "\n"@
    }
}

proof fn lemma_lines_step(s: Seq<char>, start: int, i: int)
    requires
        0 <= start <= i < s.len(),
        s[i] != '\n',
    ensures
        lines_from(s.subrange(i, s.len() as int), s.subrange(start, i)) == lines_from(
            s.subrange(i + 1, s.len() as int),
            s.subrange(start, i + 1),
        ),
{
    let t = s.subrange(i, s.len() as int);
    assert(t[0] == s[i]);
    assert(t.drop_first() == s.subrange(i + 1, s.len() as int));
    assert(s.subrange(start, i).push(s[i]) == s.subrange(start, i + 1));
}

proof fn lemma_lines_break(s: Seq<char>, start: int, i: int)
    requires
        0 <= start <= i < s.len(),
        s[i] == '\n',
    ensures
        lines_from(s.subrange(i, s.len() as int), s.subrange(start, i)) == seq![
            s.subrange(start, i),
        ] + lines_from(s.subrange(i + 1, s.len() as int), s.subrange(i + 1, i + 1)),
{
    let t = s.subrange(i, s.len() as int);
    assert(t[0] == s[i]);
    assert(t.drop_first() == s.subrange(i + 1, s.len() as int));
    assert(s.subrange(i + 1, i + 1) == Seq::<char>::empty());
}

/// The load order text, built from the first entry on.
spec fn text_from_front(order: Seq<LoadMod>) -> Seq<char>
    decreases order.len(),
{
    if order.len() == 0 {
        Seq::empty()
    } else {
        line_of_entry(order[0].enabled, order[0].id@) + "\n"@ + text_from_front(order.drop_first())
    }
}

proof fn lemma_text_from_front_last(order: Seq<LoadMod>)
    requires
        order.len() > 0,
    ensures
        text_from_front(order) == text_from_front(order.drop_last()) + line_of_entry(
            order.last().enabled,
            order.last().id@,
        ) + "\n"@,
    decreases order.len(),
{
    let nl = "\n"@;
    if order.len() == 1 {
        assert(order.drop_last() == Seq::<LoadMod>::empty());
        assert(order.drop_first() == Seq::<LoadMod>::empty());
        assert(order.last() == order[0]);
        let l = line_of_entry(order[0].enabled, order[0].id@);
        assert(l + nl + Seq::<char>::empty() == Seq::<char>::empty() + l + nl);
    } else {
        let t = order.drop_first();
        lemma_text_from_front_last(t);
        assert(order.drop_last().drop_first() == t.drop_last());
        assert(order.drop_last()[0] == order[0]);
        assert(t.last() == order.last());
        let l0 = line_of_entry(order[0].enabled, order[0].id@);
        let ll = line_of_entry(order.last().enabled, order.last().id@);
        let mid = text_from_front(t.drop_last());
        assert(l0 + nl + (mid + ll + nl) == (l0 + nl + mid) + ll + nl);
    }
}

proof fn lemma_text_from_front(order: Seq<LoadMod>)
    ensures
        load_order_text(order) == text_from_front(order),
    decreases order.len(),
{
    if order.len() > 0 {
        lemma_text_from_front(order.drop_last());
        lemma_text_from_front_last(order);
    }
}

proof fn lemma_lines_of_line(l: Seq<char>, rest: Seq<char>, cur: Seq<char>)
    requires
        !l.contains('\n'),
    ensures
        lines_from(l + "\n"@ + rest, cur) == seq![cur + l] + lines_from(rest, Seq::empty()),
    decreases l.len(),
{
    let s = l + "\n"@ + rest;
    reveal_strlit("\n");
    if l.len() == 0 {
        assert(s[0] == '\n');
        assert(s.drop_first() == rest);
        assert(cur + l == cur);
    } else {
        assert(s[0] == l[0]);
        assert(l[0] != '\n');
        let t = l.drop_first();
        assert(!t.contains('\n')) by {
            if t.contains('\n') {
                let k = choose|k: int| 0 <= k < t.len() && t[k] == '\n';
                assert(l[k + 1] == '\n');
            }
        }
        assert(s.drop_first() == t + "\n"@ + rest);
        lemma_lines_of_line(t, rest, cur.push(l[0]));
        assert(cur.push(l[0]) + t == cur + l);
    }
}

/// An entry that the file can hold: its id has no line break, does not end
/// with `\r`, and, when enabled, does not start with `--`.
pub open spec fn is_writable_entry(m: LoadMod) -> bool {
    &&& !m.id@.contains('\n')
    &&& (m.id@.len() > 0 ==> m.id@.last() != '\r')
    &&& (m.enabled ==> !is_disabled_line(m.id@))
}

proof fn lemma_lines_of_text(order: Seq<LoadMod>)
    requires
        forall|i: int| 0 <= i < order.len() ==> is_writable_entry(#[trigger] order[i]),
    ensures
        lines_from(text_from_front(order), Seq::empty()).len() == order.len(),
        forall|i: int|
            0 <= i < order.len() ==> #[trigger] lines_from(text_from_front(order), Seq::empty())[i]
                == line_of_entry(order[i].enabled, order[i].id@),
    decreases order.len(),
{
    if order.len() > 0 {
        let t = order.drop_first();
        assert forall|i: int| 0 <= i < t.len() implies is_writable_entry(#[trigger] t[i]) by {
            assert(t[i] == order[i + 1]);
        }
        lemma_lines_of_text(t);
        let m = order[0];
        assert(is_writable_entry(m));
        let l = line_of_entry(m.enabled, m.id@);
        reveal_strlit("--");
        assert(!l.contains('\n')) by {
            if l.contains('\n') {
                let k = choose|k: int| 0 <= k < l.len() && l[k] == '\n';
                if !m.enabled {
                    assert(l[k] == m.id@[k - 2]);
                }
            }
        }
        lemma_lines_of_line(l, text_from_front(t), Seq::empty());
        assert(Seq::<char>::empty() + l == l);
        let ls = lines_from(text_from_front(order), Seq::empty());
        assert forall|i: int| 0 <= i < order.len() implies #[trigger] ls[i] == line_of_entry(
            order[i].enabled,
            order[i].id@,
        ) by {
            if i > 0 {
                assert(order[i] == t[i - 1]);
            }
        }
    }
}

/// Writing a load order and reading the text back gives the same entries, in
/// the same order, for every order the file can hold.
pub proof fn lemma_load_order_round_trip(order: Seq<LoadMod>)
    requires
        forall|i: int| 0 <= i < order.len() ==> is_writable_entry(#[trigger] order[i]),
    ensures
        lines_of(load_order_text(order)).len() == order.len(),
        forall|i: int|
            0 <= i < order.len() ==> entry_of_line(
                #[trigger] order[i],
                lines_of(load_order_text(order))[i],
            ),
{
    lemma_text_from_front(order);
    lemma_lines_of_text(order);
    reveal_strlit("--");
    assert forall|i: int| 0 <= i < order.len() implies entry_of_line(
        #[trigger] order[i],
        lines_of(load_order_text(order))[i],
    ) by {
        let m = order[i];
        assert(is_writable_entry(m));
        let l = line_of_entry(m.enabled, m.id@);
        assert(lines_of(load_order_text(order))[i] == without_cr(l));
        if l.len() > 0 && !m.enabled {
            if m.id@.len() > 0 {
                assert(l.last() == m.id@.last());
            } else {
                assert(l.last() == '-');
            }
        }
        assert(without_cr(l) == l);
        if !m.enabled {
            assert(l.subrange(2, l.len() as int) == m.id@);
        }
    }
}

/// The entry for one line of the load order file.
pub fn parse_load_line(l: &str) -> (r: LoadMod)
    ensures
        entry_of_line(r, l@),
{
    let n = l.unicode_len();
    if n >= 2 && l.get_char(0) == '-' && l.get_char(1) == '-' {
        LoadMod { enabled: false, id: String::from_str(l.substring_char(2, n)) }
    } else {
        LoadMod { enabled: true, id: String::from_str(l) }
    }
}

/// Drops the `\r` of a CRLF line ending.
pub fn trim_cr(l: &str) -> (r: &str)
    ensures
        r@ == without_cr(l@),
{
    let n = l.unicode_len();
    if n > 0 && l.get_char(n - 1) == '\r' {
        l.substring_char(0, n - 1)
    } else {
        l
    }
}

/// Reads the load order file's text: one entry per line, in file order.
pub fn parse_load_order(text: &str) -> (r: Vec<LoadMod>)
    ensures
        r@.len() == lines_of(text@).len(),
        forall|i: int| 0 <= i < r@.len() ==> entry_of_line(#[trigger] r@[i], lines_of(text@)[i]),
{
    let n = text.unicode_len();
    let ghost s = text@;
    let mut out: Vec<LoadMod> = Vec::new();
    let ghost done: Seq<Seq<char>> = Seq::empty();
    let mut start: usize = 0;
    let mut i: usize = 0;
    assert(s.subrange(0, n as int) == s);
    assert(s.subrange(0, 0) == Seq::<char>::empty());
    assert(done + lines_from(s, Seq::empty()) == lines_from(s, Seq::empty()));
    while i < n
        invariant
            n == s.len(),
            s == text@,
            0 <= start <= i <= n,
            done + lines_from(s.subrange(i as int, n as int), s.subrange(start as int, i as int))
                == lines_from(s, Seq::empty()),
            out@.len() == done.len(),
            forall|k: int|
                0 <= k < out@.len() ==> entry_of_line(#[trigger] out@[k], without_cr(done[k])),
        decreases n - i,
    {
        if text.get_char(i) == '\n' {
            proof {
                lemma_lines_break(s, start as int, i as int);
                assert(done + seq![s.subrange(start as int, i as int)] + lines_from(
                    s.subrange(i + 1, n as int),
                    s.subrange(i + 1, i + 1),
                ) == done + (seq![s.subrange(start as int, i as int)] + lines_from(
                    s.subrange(i + 1, n as int),
                    s.subrange(i + 1, i + 1),
                )));
            }
            let line = text.substring_char(start, i);
            let m = parse_load_line(trim_cr(line));
            out.push(m);
            proof {
                done = done.push(s.subrange(start as int, i as int));
            }
            start = i + 1;
        } else {
            proof {
                lemma_lines_step(s, start as int, i as int);
            }
        }
        i = i + 1;
    }
    assert(s.subrange(n as int, n as int) == Seq::<char>::empty());
    if start < n {
        let line = text.substring_char(start, n);
        let m = parse_load_line(trim_cr(line));
        out.push(m);
        proof {
            done = done.push(s.subrange(start as int, n as int));
        }
    }
    assert(done == lines_from(s, Seq::empty()));
    out
}

/// Writes a load order as the text of its file: one line per entry, a
/// disabled entry behind `--`, each line ended by `\n`.
pub fn render_load_order(order: &Vec<LoadMod>) -> (r: String)
    ensures
        r@ == load_order_text(order@),
{
    let mut out = String::new();
    let mut i: usize = 0;
    while i < order.len()
        invariant
            0 <= i <= order@.len(),
            out@ == load_order_text(order@.subrange(0, i as int)),
        decreases order@.len() - i,
    {
        let m = &order[i];
        let line = if m.enabled {
            String::from_str(m.id.as_str())
        } else {
            String::from_str("--").concat(m.id.as_str())
        };
        proof {
            let p = order@.subrange(0, i + 1);
            assert(p.drop_last() == order@.subrange(0, i as int));
            assert(p.last() == order@[i as int]);
        }
        out = out.concat(line.as_str()).concat("\n");
        i = i + 1;
    }
    assert(order@.subrange(0, order@.len() as int) == order@);
    out
}

#[derive(Clone, Debug, PartialEq, Eq)]
pub struct ScriptSettings {
    pub enable_developer_mode: bool,
    pub enable_developer_console: bool,
    pub console_history_size: i32,
}

impl Default for ScriptSettings {
    fn default() -> (r: Self)
        ensures
            r == (ScriptSettings {
                enable_developer_mode: false,
                enable_developer_console: false,
                console_history_size: 20,
            }),
    {
        ScriptSettings {
            enable_developer_mode: false,
            enable_developer_console: false,
            console_history_size: 20,
        }
    }
}

#[derive(Clone, Debug, PartialEq, Eq)]
pub struct AudioSettings {
    pub enable_loose_audio_files: bool,
    pub cache_decoded_audio_files: bool,
    pub synchronous_update: bool,
}

impl Default for AudioSettings {
    fn default() -> (r: Self)
        ensures
            r == (AudioSettings {
                enable_loose_audio_files: true,
                cache_decoded_audio_files: false,
                synchronous_update: true,
            }),
    {
        AudioSettings {
            enable_loose_audio_files: true,
            cache_decoded_audio_files: false,
            synchronous_update: true,
        }
    }
}

#[derive(Clone, Debug, PartialEq, Eq)]
pub struct SpriteSettings {
    pub random_character_select: bool,
    pub link_related_files: bool,
    pub generate_character_journal_stickers: bool,
    pub generate_character_journal_entries: bool,
    pub generate_sticker_pixel_art: bool,
    pub enable_sprite_hot_loading: bool,
    pub sprite_hot_load_delay: i32,
    pub enable_customizable_sheets: bool,
    pub enable_luminance_scaling: bool,
}

impl Default for SpriteSettings {
    fn default() -> (r: Self)
        ensures
            r == (SpriteSettings {
                random_character_select: false,
                link_related_files: true,
                generate_character_journal_stickers: true,
                generate_character_journal_entries: true,
                generate_sticker_pixel_art: true,
                enable_sprite_hot_loading: false,
                sprite_hot_load_delay: 400,
                enable_customizable_sheets: true,
                enable_luminance_scaling: true,
            }),
    {
        SpriteSettings {
            random_character_select: false,
            link_related_files: true,
            generate_character_journal_stickers: true,
            generate_character_journal_entries: true,
            generate_sticker_pixel_art: true,
            enable_sprite_hot_loading: false,
            sprite_hot_load_delay: 400,
            enable_customizable_sheets: true,
            enable_luminance_scaling: true,
        }
    }
}

#[derive(Clone, Debug, PartialEq, Eq)]
pub struct BugFixes {
    pub out_of_bounds_liquids: bool,
    pub missing_thorns: bool,
    pub missing_pipes: bool,
}

impl Default for BugFixes {
    fn default() -> (r: Self)
        ensures
            r == (BugFixes { out_of_bounds_liquids: true, missing_thorns: true, missing_pipes: false }),
    {
        BugFixes { out_of_bounds_liquids: true, missing_thorns: true, missing_pipes: false }
    }
}

/// Virtual-key codes of the console bindings.
#[derive(Clone, Debug, PartialEq, Eq)]
pub struct KeyBindings {
    pub console: u64,
    pub console_alt: u64,
    pub console_close: u64,
}

impl Default for KeyBindings {
    fn default() -> (r: Self)
        ensures
            r == (KeyBindings { console: 0xc0, console_alt: 0xdc, console_close: 0x1b }),
    {
        KeyBindings { console: 0xc0, console_alt: 0xdc, console_close: 0x1b }
    }
}

} // verus!
