use vstd::prelude::*;

use crate::map::chars_of;
use crate::strings::push_char;

verus! {

/// The difficulty of a campaign.
#[derive(Clone, Copy, Debug, PartialEq, Eq, Structural)]
pub enum GameDifficulty {
    Easy,
    Normal,
    Hard,
}

impl GameDifficulty {
    /// The name of the difficulty shown to players.
    pub fn label(self) -> (r: &'static str)
        ensures
            self == GameDifficulty::Easy ==> r@ == "Easy"@,
            self == GameDifficulty::Normal ==> r@ == "Normal"@,
            self == GameDifficulty::Hard ==> r@ == "Hard"@,
    {
        match self {
            GameDifficulty::Easy => "Easy",
            GameDifficulty::Normal => "Normal",
            GameDifficulty::Hard => "Hard",
        }
    }
}

impl Default for GameDifficulty {
    fn default() -> (r: GameDifficulty)
        ensures
            r == GameDifficulty::Normal,
    {
        GameDifficulty::Normal
    }
}

/// The saved progress of the single-player campaign.
#[derive(Clone, Copy, Debug, PartialEq, Eq, Structural)]
pub struct SaveState {
    /// The current level.
    pub level: u32,
    /// The lives left.
    pub lives: u32,
    /// The score of the ongoing campaign.
    pub score: u32,
    /// The difficulty of the ongoing campaign.
    pub difficulty: GameDifficulty,
}

impl Default for SaveState {
    /// A new campaign: level 1, three lives, no score, normal difficulty.
    fn default() -> (r: SaveState)
        ensures
            r == (SaveState { level: 1, lives: 3, score: 0, difficulty: GameDifficulty::Normal }),
    {
        SaveState { level: 1, lives: 3, score: 0, difficulty: GameDifficulty::Normal }
    }
}

/// The resolution the game is rendered at.
#[derive(Clone, Copy, Debug, PartialEq, Eq, Structural)]
pub enum Resolution {
    /// The size of the window.
    Full,
    /// A fixed size in pixels.
    Custom(u32, u32),
}

impl Resolution {
    /// The rendering size in pixels for a window of `window_size`.
    pub fn resolution(&self, window_size: [u32; 2]) -> (r: [u32; 2])
        ensures
            r@ == match *self {
                Resolution::Full => window_size@,
                Resolution::Custom(w, h) => seq![w, h],
            },
    {
        match self {
            Resolution::Full => window_size,
            Resolution::Custom(width, height) => {
                let r = [*width, *height];
                assert(r@ =~= seq![*width, *height]);
                r
            },
        }
    }
}

/// The operating systems whose settings folders the game knows.
#[derive(Clone, Copy, Debug, PartialEq, Eq, Structural)]
pub enum Platform {
    Linux,
    MacOs,
    Windows,
}

/// The folder of the settings file on `platform`, from what the
/// environment gives: on Linux and macOS `$XDG_DATA_HOME`, else the data
/// folder under the home folder, else the working directory; on Windows a
/// `Bomberman` folder in `%APPDATA%`, else in the working directory.
pub open spec fn settings_dir(platform: Platform, xdg: Option<Seq<char>>, home: Option<Seq<char>>, appdata: Option<Seq<char>>) -> Seq<char> {
    match platform {
        Platform::Windows => {
            let base = match appdata {
                Some(d) => d,
                None => "."@,
            };
            base + "\\Bomberman"@
        },
        _ => match xdg {
            Some(d) => d,
            None => match home {
                Some(h) => h + if platform == Platform::MacOs {
                    "/Library/Application Support"@
                } else {
                    "/.local/share"@
                },
                None => "."@,
            },
        },
    }
}

/// The settings file in the folder `dir` on `platform`.
pub open spec fn settings_file(platform: Platform, dir: Seq<char>) -> Seq<char> {
    dir + if platform == Platform::Windows {
        "\\bomberman.save"@
    } else {
        "/bomberman.save"@
    }
}

/// Appends the characters of `t` to `s`.
fn append(s: &mut String, t: &str)
    ensures
        final(s)@ == old(s)@ + t@,
{
    let cs = chars_of(t);
    let mut i: usize = 0;
    while i < cs.len()
        invariant
            i <= cs@.len(),
            cs@ == t@,
            s@ == old(s)@ + t@.subrange(0, i as int),
        decreases cs@.len() - i,
    {
        push_char(s, cs[i]);
        i = i + 1;
        assert(t@.subrange(0, i as int) =~= t@.subrange(0, i - 1).push(cs@[i - 1]));
    }
    assert(t@.subrange(0, i as int) =~= t@);
}

/// The path of the settings file on `platform`, from the values of
/// `$XDG_DATA_HOME`, the home folder and `%APPDATA%`, where set.
pub fn settings_file_path(platform: Platform, xdg: Option<&str>, home: Option<&str>, appdata: Option<&str>) -> (r: String)
    ensures
        r@ == settings_file(
            platform,
            settings_dir(
                platform,
                match xdg {
                    Some(d) => Some(d@),
                    None => None,
                },
                match home {
                    Some(h) => Some(h@),
                    None => None,
                },
                match appdata {
                    Some(a) => Some(a@),
                    None => None,
                },
            ),
        ),
{
    let mut r = String::new();
    match platform {
        Platform::Windows => {
            match appdata {
                Some(d) => append(&mut r, d),
                None => append(&mut r, "."),
            }
            append(&mut r, "\\Bomberman");
            append(&mut r, "\\bomberman.save");
        },
        _ => {
            match xdg {
                Some(d) => append(&mut r, d),
                None => match home {
                    Some(h) => {
                        append(&mut r, h);
                        if platform == Platform::MacOs {
                            append(&mut r, "/Library/Application Support");
                        } else {
                            append(&mut r, "/.local/share");
                        }
                    },
                    None => append(&mut r, "."),
                },
            }
            append(&mut r, "/bomberman.save");
        },
    }
    r
}

} // verus!
