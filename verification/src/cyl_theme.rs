//! Theme tables: character colors, difficulty badges and icon paths.

use vstd::prelude::*;

verus! {

/// The character themes with a fixed accent color, and a custom escape.
#[derive(Clone, Debug)]
pub enum CylheimThemeColor {
    Paff,
    NekoTheElder,
    Robo,
    Ivy,
    CrystalPunk,
    Vanessa,
    Bobo,
    Graffj,
    Amiya,
    Kaf,
    Alice,
    Hans,
    KizunaAi,
    Miku,
    Ilka,
    Xenon,
    Conner,
    Cherry,
    Joe,
    Sagar,
    Rin,
    Aroma,
    Nora,
    NekoTheYounger,
    CustomColor(String),
}

/// The accent color of each theme.
pub open spec fn spec_theme_color(t: CylheimThemeColor) -> Seq<char> {
    match t {
        CylheimThemeColor::Paff => "#FF5BC098"@,
        CylheimThemeColor::NekoTheElder => "#FFC481A2"@,
        CylheimThemeColor::Robo => "#FF84B6BF"@,
        CylheimThemeColor::Ivy => "#FFBA1E1E"@,
        CylheimThemeColor::CrystalPunk => "#FFA1505F"@,
        CylheimThemeColor::Vanessa => "#FF9EE0E0"@,
        CylheimThemeColor::Bobo => "#FF83AC36"@,
        CylheimThemeColor::Graffj => "#FFC79C4E"@,
        CylheimThemeColor::Amiya => "#FF5BC8C8"@,
        CylheimThemeColor::Kaf => "#FF454BDD"@,
        CylheimThemeColor::Alice => "#FF66494F"@,
        CylheimThemeColor::Hans => "#FF434343"@,
        CylheimThemeColor::KizunaAi => "#FFFF9EBF"@,
        CylheimThemeColor::Miku => "#FF03BACE"@,
        CylheimThemeColor::Ilka => "#FFFFFFFF"@,
        CylheimThemeColor::Xenon => "#FF923434"@,
        CylheimThemeColor::Conner => "#FFCD8145"@,
        CylheimThemeColor::Cherry => "#FFA1505F"@,
        CylheimThemeColor::Joe => "#FF644671"@,
        CylheimThemeColor::Sagar => "#FFB78548"@,
        CylheimThemeColor::Rin => "#FF83AC36"@,
        CylheimThemeColor::Aroma => "#FF5BC098"@,
        CylheimThemeColor::Nora => "#FF84B6BF"@,
        CylheimThemeColor::NekoTheYounger => "#FFC481A2"@,
        CylheimThemeColor::CustomColor(c) => c@,
    }
}

impl CylheimThemeColor {
    /// The accent color of this theme, as an ARGB hex string.
    pub fn get_color(&self) -> (r: &str)
        ensures
            r@ == spec_theme_color(*self),
    {
        match self {
            CylheimThemeColor::Paff => "#FF5BC098",
            CylheimThemeColor::NekoTheElder => "#FFC481A2",
            CylheimThemeColor::Robo => "#FF84B6BF",
            CylheimThemeColor::Ivy => "#FFBA1E1E",
            CylheimThemeColor::CrystalPunk => "#FFA1505F",
            CylheimThemeColor::Vanessa => "#FF9EE0E0",
            CylheimThemeColor::Bobo => "#FF83AC36",
            CylheimThemeColor::Graffj => "#FFC79C4E",
            CylheimThemeColor::Amiya => "#FF5BC8C8",
            CylheimThemeColor::Kaf => "#FF454BDD",
            CylheimThemeColor::Alice => "#FF66494F",
            CylheimThemeColor::Hans => "#FF434343",
            CylheimThemeColor::KizunaAi => "#FFFF9EBF",
            CylheimThemeColor::Miku => "#FF03BACE",
            CylheimThemeColor::Ilka => "#FFFFFFFF",
            CylheimThemeColor::Xenon => "#FF923434",
            CylheimThemeColor::Conner => "#FFCD8145",
            CylheimThemeColor::Cherry => "#FFA1505F",
            CylheimThemeColor::Joe => "#FF644671",
            CylheimThemeColor::Sagar => "#FFB78548",
            CylheimThemeColor::Rin => "#FF83AC36",
            CylheimThemeColor::Aroma => "#FF5BC098",
            CylheimThemeColor::Nora => "#FF84B6BF",
            CylheimThemeColor::NekoTheYounger => "#FFC481A2",
            CylheimThemeColor::CustomColor(c) => c.as_str(),
        }
    }
}

/// The difficulty classes, and a custom escape carrying its own badge.
#[derive(Clone, Debug)]
pub enum CylheimDiffOption {
    Easy,
    Hard,
    Chaos,
    Glitch,
    Crash,
    Dream,
    Custom(CylheimDiffMeta),
}

/// A difficulty badge: its name, background color and text color.
#[derive(Clone, Debug)]
pub struct CylheimDiffMeta {
    pub diff_name: String,
    pub diff_background_color: String,
    pub diff_text_color: String,
}

impl CylheimDiffOption {
    /// The badge of this difficulty.
    pub fn get_meta(&self) -> (r: CylheimDiffMeta)
        ensures
            ({
                match self {
                    CylheimDiffOption::Easy => r.diff_name@ == "EASY"@
                        && r.diff_background_color@ == "#FF003366"@ && r.diff_text_color@
                        == "#B333CCFF"@,
                    CylheimDiffOption::Hard => r.diff_name@ == "HARD"@
                        && r.diff_background_color@ == "#FF330000"@ && r.diff_text_color@
                        == "#B3FF3333"@,
                    CylheimDiffOption::Chaos => r.diff_name@ == "CHAOS"@
                        && r.diff_background_color@ == "#FF330033"@ && r.diff_text_color@
                        == "#B3FF33FF"@,
                    CylheimDiffOption::Glitch => r.diff_name@ == "GLITCH"@
                        && r.diff_background_color@ == "#FF002E1D"@ && r.diff_text_color@
                        == "#B300A96B"@,
                    CylheimDiffOption::Crash => r.diff_name@ == "CRASH"@
                        && r.diff_background_color@ == "#FF452E13"@ && r.diff_text_color@
                        == "#B3FFC000"@,
                    CylheimDiffOption::Dream => r.diff_name@ == "DREAM"@
                        && r.diff_background_color@ == "#FF3E3E3E"@ && r.diff_text_color@
                        == "#B3FFFFFF"@,
                    CylheimDiffOption::Custom(m) => r.diff_name@ == m.diff_name@
                        && r.diff_background_color@ == m.diff_background_color@
                        && r.diff_text_color@ == m.diff_text_color@,
                }
            }),
    {
        match self {
            CylheimDiffOption::Easy => CylheimDiffMeta {
                diff_name: "EASY".to_owned(),
                diff_background_color: "#FF003366".to_owned(),
                diff_text_color: "#B333CCFF".to_owned(),
            },
            CylheimDiffOption::Hard => CylheimDiffMeta {
                diff_name: "HARD".to_owned(),
                diff_background_color: "#FF330000".to_owned(),
                diff_text_color: "#B3FF3333".to_owned(),
            },
            CylheimDiffOption::Chaos => CylheimDiffMeta {
                diff_name: "CHAOS".to_owned(),
                diff_background_color: "#FF330033".to_owned(),
                diff_text_color: "#B3FF33FF".to_owned(),
            },
            CylheimDiffOption::Glitch => CylheimDiffMeta {
                diff_name: "GLITCH".to_owned(),
                diff_background_color: "#FF002E1D".to_owned(),
                diff_text_color: "#B300A96B".to_owned(),
            },
            CylheimDiffOption::Crash => CylheimDiffMeta {
                diff_name: "CRASH".to_owned(),
                diff_background_color: "#FF452E13".to_owned(),
                diff_text_color: "#B3FFC000".to_owned(),
            },
            CylheimDiffOption::Dream => CylheimDiffMeta {
                diff_name: "DREAM".to_owned(),
                diff_background_color: "#FF3E3E3E".to_owned(),
                diff_text_color: "#B3FFFFFF".to_owned(),
            },
            CylheimDiffOption::Custom(m) => CylheimDiffMeta {
                diff_name: clone_string(&m.diff_name),
                diff_background_color: clone_string(&m.diff_background_color),
                diff_text_color: clone_string(&m.diff_text_color),
            },
        }
    }
}

/// Copies a string.
fn clone_string(s: &String) -> (r: String)
    ensures
        r@ == s@,
{
    s.clone()
}

/// The character icons, and a custom escape carrying its own path.
pub enum CylheimThemeIcon {
    Paff,
    NekoTheElder,
    Robo,
    Ivy,
    CrystalPunk,
    Vanessa,
    VanessaS,
    Bobo,
    Graffj,
    Amiya,
    Kaf,
    Alice,
    Hans,
    KizunaAi,
    Miku,
    Ilka,
    Xenon,
    Conner,
    Cherry,
    Joe,
    Sagar,
    Rin,
    Aroma,
    Nora,
    NekoTheYounger,
    CustomColor(String),
}

/// The icon path of each theme.
pub open spec fn spec_theme_icon(t: CylheimThemeIcon) -> Seq<char> {
    match t {
        CylheimThemeIcon::Paff => "cyl://cyicons/paff001"@,
        CylheimThemeIcon::NekoTheElder => "cyl://cyicons/neko001"@,
        CylheimThemeIcon::Robo => "cyl://cyicons/robo001"@,
        CylheimThemeIcon::Ivy => "cyl://cyicons/ivy001"@,
        CylheimThemeIcon::CrystalPunk => "cyl://cyicons/cherry002"@,
        CylheimThemeIcon::Vanessa => "cyl://cyicons/vanessa001"@,
        CylheimThemeIcon::VanessaS => "cyl://cyicons/vanessa001s"@,
        CylheimThemeIcon::Bobo => "cyl://cyicons/bobo001"@,
        CylheimThemeIcon::Graffj => "cyl://cyicons/graffj001"@,
        CylheimThemeIcon::Amiya => "cyl://cyicons/amiya001"@,
        CylheimThemeIcon::Kaf => "cyl://cyicons/kaf001"@,
        CylheimThemeIcon::Alice => "cyl://cyicons/alice001"@,
        CylheimThemeIcon::Hans => "cyl://cyicons/hans001"@,
        CylheimThemeIcon::KizunaAi => "cyl://cyicons/ai001"@,
        CylheimThemeIcon::Miku => "cyl://cyicons/miku001"@,
        CylheimThemeIcon::Ilka => "cyl://cyicons/ilka001"@,
        CylheimThemeIcon::Xenon => "cyl://cyicons/xenon001"@,
        CylheimThemeIcon::Conner => "cyl://cyicons/conner001"@,
        CylheimThemeIcon::Cherry => "cyl://cyicons/cherry001"@,
        CylheimThemeIcon::Joe => "cyl://cyicons/joe001"@,
        CylheimThemeIcon::Sagar => "cyl://cyicons/sagar001"@,
        CylheimThemeIcon::Rin => "cyl://cyicons/rin001"@,
        CylheimThemeIcon::Aroma => "cyl://cyicons/paff002"@,
        CylheimThemeIcon::Nora => "cyl://cyicons/robo002"@,
        CylheimThemeIcon::NekoTheYounger => "cyl://cyicons/neko002"@,
        CylheimThemeIcon::CustomColor(c) => c@,
    }
}

impl CylheimThemeIcon {
    /// The icon path of this theme.
    pub fn get_icon_path(&self) -> (r: &str)
        ensures
            r@ == spec_theme_icon(*self),
    {
        match self {
            CylheimThemeIcon::Paff => "cyl://cyicons/paff001",
            CylheimThemeIcon::NekoTheElder => "cyl://cyicons/neko001",
            CylheimThemeIcon::Robo => "cyl://cyicons/robo001",
            CylheimThemeIcon::Ivy => "cyl://cyicons/ivy001",
            CylheimThemeIcon::CrystalPunk => "cyl://cyicons/cherry002",
            CylheimThemeIcon::Vanessa => "cyl://cyicons/vanessa001",
            CylheimThemeIcon::VanessaS => "cyl://cyicons/vanessa001s",
            CylheimThemeIcon::Bobo => "cyl://cyicons/bobo001",
            CylheimThemeIcon::Graffj => "cyl://cyicons/graffj001",
            CylheimThemeIcon::Amiya => "cyl://cyicons/amiya001",
            CylheimThemeIcon::Kaf => "cyl://cyicons/kaf001",
            CylheimThemeIcon::Alice => "cyl://cyicons/alice001",
            CylheimThemeIcon::Hans => "cyl://cyicons/hans001",
            CylheimThemeIcon::KizunaAi => "cyl://cyicons/ai001",
            CylheimThemeIcon::Miku => "cyl://cyicons/miku001",
            CylheimThemeIcon::Ilka => "cyl://cyicons/ilka001",
            CylheimThemeIcon::Xenon => "cyl://cyicons/xenon001",
            CylheimThemeIcon::Conner => "cyl://cyicons/conner001",
            CylheimThemeIcon::Cherry => "cyl://cyicons/cherry001",
            CylheimThemeIcon::Joe => "cyl://cyicons/joe001",
            CylheimThemeIcon::Sagar => "cyl://cyicons/sagar001",
            CylheimThemeIcon::Rin => "cyl://cyicons/rin001",
            CylheimThemeIcon::Aroma => "cyl://cyicons/paff002",
            CylheimThemeIcon::Nora => "cyl://cyicons/robo002",
            CylheimThemeIcon::NekoTheYounger => "cyl://cyicons/neko002",
            CylheimThemeIcon::CustomColor(c) => c.as_str(),
        }
    }
}

} // verus!
