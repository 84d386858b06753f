//! Which desktop a wallpaper is handed to, and in what words.

use crate::text::{contains, decimal, is_substring, push_decimal, same_text};
use vstd::prelude::*;

verus! {

/// The desktops that can be told to show a wallpaper.
#[derive(Clone, Copy, Debug, PartialEq, Eq, Structural)]
pub enum WallpaperSetter {
    Windows,
    MacOs,
    Gnome,
    Kde,
}

/// Why no desktop can be told.
#[derive(Clone, Copy, Debug, PartialEq, Eq, Structural)]
pub enum SetterError {
    /// The platform is none of `windows`, `macos` and `linux`.
    UnsupportedPlatform,
    /// The desktop has no number for the display with this index.
    NoSuchDesktop { index: usize },
}

/// What is to be done to show a wallpaper.
#[derive(Debug, PartialEq, Eq)]
pub enum WallpaperAction {
    /// Nothing: the desktop has no setter.
    Nothing,
    /// The image at `path` is handed to the desktop of Windows.
    SetDesktopWallpaper { path: String },
    /// The program is started with the arguments.
    Run { program: String, arguments: Vec<String> },
}

/// What is to be done to show a wallpaper, as text.
pub enum ActionText {
    Nothing,
    SetDesktopWallpaper { path: Seq<char> },
    Run { program: Seq<char>, arguments: Seq<Seq<char>> },
}

impl View for WallpaperAction {
    type V = ActionText;

    open spec fn view(&self) -> ActionText {
        match self {
            WallpaperAction::Nothing => ActionText::Nothing,
            WallpaperAction::SetDesktopWallpaper { path } => ActionText::SetDesktopWallpaper {
                path: path@,
            },
            WallpaperAction::Run { program, arguments } => ActionText::Run {
                program: program@,
                arguments: arguments@.map_values(|argument: String| argument@),
            },
        }
    }
}

/// The setter for a platform. On `linux` the desktop decides, by the name it
/// gives itself: one that names GNOME is GNOME, else one that names KDE is
/// KDE, and any other desktop, or none, has no setter.
pub open spec fn setter_for(platform: Seq<char>, desktop: Option<Seq<char>>) -> Result<
    Option<WallpaperSetter>,
    SetterError,
> {
    if platform == "windows"@ {
        Ok(Some(WallpaperSetter::Windows))
    } else if platform == "macos"@ {
        Ok(Some(WallpaperSetter::MacOs))
    } else if platform == "linux"@ {
        match desktop {
            Some(name) => if is_substring("GNOME"@, name) {
                Ok(Some(WallpaperSetter::Gnome))
            } else if is_substring("KDE"@, name) {
                Ok(Some(WallpaperSetter::Kde))
            } else {
                Ok(None)
            },
            None => Ok(None),
        }
    } else {
        Err(SetterError::UnsupportedPlatform)
    }
}

/// The setter for a platform and, on `linux`, the desktop in use.
pub fn choose_setter(platform: &str, desktop: Option<&str>) -> (res: Result<
    Option<WallpaperSetter>,
    SetterError,
>)
    ensures
        res == setter_for(
            platform@,
            match desktop {
                Some(name) => Some(name@),
                None => None,
            },
        ),
{
    if same_text(platform, "windows") {
        Ok(Some(WallpaperSetter::Windows))
    } else if same_text(platform, "macos") {
        Ok(Some(WallpaperSetter::MacOs))
    } else if same_text(platform, "linux") {
        match desktop {
            Some(name) => if contains(name, "GNOME") {
                Ok(Some(WallpaperSetter::Gnome))
            } else if contains(name, "KDE") {
                Ok(Some(WallpaperSetter::Kde))
            } else {
                Ok(None)
            },
            None => Ok(None),
        }
    } else {
        Err(SetterError::UnsupportedPlatform)
    }
}

impl SetterError {
    /// What the user is told.
    pub open spec fn message_text(self) -> Seq<char> {
        match self {
            SetterError::UnsupportedPlatform => "不支持的平台"@,
            SetterError::NoSuchDesktop { index } => "Failed to set wallpaper: no desktop for display "@
                + decimal(index as nat),
        }
    }

    /// What the user is told.
    pub fn message(&self) -> (message: String)
        ensures
            message@ == self.message_text(),
    {
        match self {
            SetterError::UnsupportedPlatform => String::from_str("不支持的平台"),
            SetterError::NoSuchDesktop { index } => {
                let mut message = String::from_str(
                    "Failed to set wallpaper: no desktop for display ",
                );
                push_decimal(&mut message, *index as u64);
                message
            },
        }
    }
}

/// The address of a file as the desktops want it: `file://{path}`.
pub open spec fn file_url_text(path: Seq<char>) -> Seq<char> {
    "file://"@ + path
}

/// The sentence that tells macOS to show the image on the display with the
/// given index; macOS counts its desktops from one.
pub open spec fn mac_script_text(display_index: nat, path: Seq<char>) -> Seq<char> {
    "tell application \"System Events\" to set picture of desktop "@ + decimal(display_index + 1)
        + " to \""@ + path + "\""@
}

/// The key under which GNOME keeps the wallpaper of the display with the given index.
pub open spec fn gnome_key_text(display_index: nat) -> Seq<char> {
    "org.gnome.desktop.background.picture-uri-"@ + decimal(display_index)
}

/// The script that tells KDE to show the image on the display with the given index.
pub open spec fn kde_script_text(display_index: nat, path: Seq<char>) -> Seq<char> {
    "string:var allDesktops = desktops(); \\n                        d = allDesktops["@ + decimal(
        display_index,
    )
        + "]; \\n                        d.wallpaperPlugin = \"org.kde.image\"; \\n                        d.currentConfigGroup = Array(\"Wallpaper\", \"org.kde.image\", \"General\"); \\n                        d.writeConfig(\"Image\", \"file://"@
        + path + "\")"@
}

/// The address of a file as the desktops want it.
pub fn file_url(path: &str) -> (url: String)
    ensures
        url@ == file_url_text(path@),
{
    let mut url = String::from_str("file://");
    url.append(path);
    url
}

/// The sentence that tells macOS to show the image on a display; `None`
/// where the display has no number.
pub fn mac_script(display_index: usize, path: &str) -> (script: Option<String>)
    ensures
        script is Some <==> display_index + 1 <= u64::MAX,
        script matches Some(text) ==> text@ == mac_script_text(display_index as nat, path@),
{
    let number: u64 = match (display_index as u64).checked_add(1) {
        Some(number) => number,
        None => {
            return None;
        },
    };
    let mut script = String::from_str(
        "tell application \"System Events\" to set picture of desktop ",
    );
    push_decimal(&mut script, number);
    script.append(" to \"");
    script.append(path);
    script.append("\"");
    Some(script)
}

/// The key under which GNOME keeps the wallpaper of a display.
pub fn gnome_key(display_index: usize) -> (key: String)
    ensures
        key@ == gnome_key_text(display_index as nat),
{
    let mut key = String::from_str("org.gnome.desktop.background.picture-uri-");
    push_decimal(&mut key, display_index as u64);
    key
}

/// The script that tells KDE to show the image on a display.
pub fn kde_script(display_index: usize, path: &str) -> (script: String)
    ensures
        script@ == kde_script_text(display_index as nat, path@),
{
    let mut script = String::from_str(
        "string:var allDesktops = desktops(); \\n                        d = allDesktops[",
    );
    push_decimal(&mut script, display_index as u64);
    script.append(
        "]; \\n                        d.wallpaperPlugin = \"org.kde.image\"; \\n                        d.currentConfigGroup = Array(\"Wallpaper\", \"org.kde.image\", \"General\"); \\n                        d.writeConfig(\"Image\", \"file://",
    );
    script.append(path);
    script.append("\")");
    script
}

/// What is to be done to show the image at `path` on the display with the
/// given index: Windows takes the path itself; macOS is told by `osascript`,
/// GNOME by `gsettings`, KDE by `dbus-send`; a desktop without a setter gets
/// nothing.
pub open spec fn action_for(
    path: Seq<char>,
    platform: Seq<char>,
    display_index: nat,
    desktop: Option<Seq<char>>,
) -> Result<ActionText, SetterError> {
    match setter_for(platform, desktop) {
        Err(error) => Err(error),
        Ok(None) => Ok(ActionText::Nothing),
        Ok(Some(WallpaperSetter::Windows)) => Ok(ActionText::SetDesktopWallpaper { path }),
        Ok(Some(WallpaperSetter::MacOs)) => if display_index + 1 <= u64::MAX {
            Ok(
                ActionText::Run {
                    program: "osascript"@,
                    arguments: seq!["-e"@, mac_script_text(display_index, path)],
                },
            )
        } else {
            Err(SetterError::NoSuchDesktop { index: display_index as usize })
        },
        Ok(Some(WallpaperSetter::Gnome)) => Ok(
            ActionText::Run {
                program: "gsettings"@,
                arguments: seq!["set"@, gnome_key_text(display_index), file_url_text(path)],
            },
        ),
        Ok(Some(WallpaperSetter::Kde)) => Ok(
            ActionText::Run {
                program: "dbus-send"@,
                arguments: seq![
                    "--session"@,
                    "--dest=org.kde.plasmashell"@,
                    "--type=method_call"@,
                    "/PlasmaShell"@,
                    "org.kde.PlasmaShell.evaluateScript"@,
                    kde_script_text(display_index, path),
                ],
            },
        ),
    }
}

/// What is to be done to show the image at `image_path` on the display with
/// the given index, on the given platform and, on `linux`, the desktop in use.
pub fn set_wallpaper_for_monitor(
    image_path: &str,
    platform: &str,
    monitor_index: usize,
    desktop: Option<&str>,
) -> (res: Result<WallpaperAction, SetterError>)
    ensures
        match res {
            Ok(action) => action_for(
                image_path@,
                platform@,
                monitor_index as nat,
                match desktop {
                    Some(name) => Some(name@),
                    None => None,
                },
            ) == Ok::<ActionText, SetterError>(action@),
            Err(error) => action_for(
                image_path@,
                platform@,
                monitor_index as nat,
                match desktop {
                    Some(name) => Some(name@),
                    None => None,
                },
            ) == Err::<ActionText, SetterError>(error),
        },
{
    let setter = match choose_setter(platform, desktop) {
        Ok(setter) => setter,
        Err(error) => {
            return Err(error);
        },
    };
    match setter {
        None => Ok(WallpaperAction::Nothing),
        Some(WallpaperSetter::Windows) => Ok(
            WallpaperAction::SetDesktopWallpaper { path: String::from_str(image_path) },
        ),
        Some(WallpaperSetter::MacOs) => match mac_script(monitor_index, image_path) {
            Some(script) => {
                let mut arguments: Vec<String> = Vec::new();
                arguments.push(String::from_str("-e"));
                arguments.push(script);
                let action = WallpaperAction::Run {
                    program: String::from_str("osascript"),
                    arguments,
                };
                assert(action@->Run_arguments =~= seq![
                    "-e"@,
                    mac_script_text(monitor_index as nat, image_path@),
                ]);
                Ok(action)
            },
            None => Err(SetterError::NoSuchDesktop { index: monitor_index }),
        },
        Some(WallpaperSetter::Gnome) => {
            let mut arguments: Vec<String> = Vec::new();
            arguments.push(String::from_str("set"));
            arguments.push(gnome_key(monitor_index));
            arguments.push(file_url(image_path));
            let action = WallpaperAction::Run {
                program: String::from_str("gsettings"),
                arguments,
            };
            assert(action@->Run_arguments =~= seq![
                "set"@,
                gnome_key_text(monitor_index as nat),
                file_url_text(image_path@),
            ]);
            Ok(action)
        },
        Some(WallpaperSetter::Kde) => {
            let mut arguments: Vec<String> = Vec::new();
            arguments.push(String::from_str("--session"));
            arguments.push(String::from_str("--dest=org.kde.plasmashell"));
            arguments.push(String::from_str("--type=method_call"));
            arguments.push(String::from_str("/PlasmaShell"));
            arguments.push(String::from_str("org.kde.PlasmaShell.evaluateScript"));
            arguments.push(kde_script(monitor_index, image_path));
            let action = WallpaperAction::Run {
                program: String::from_str("dbus-send"),
                arguments,
            };
            assert(action@->Run_arguments =~= seq![
                "--session"@,
                "--dest=org.kde.plasmashell"@,
                "--type=method_call"@,
                "/PlasmaShell"@,
                "org.kde.PlasmaShell.evaluateScript"@,
                kde_script_text(monitor_index as nat, image_path@),
            ]);
            Ok(action)
        },
    }
}

} // verus!
