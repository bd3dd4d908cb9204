//! Game settings, and the rendering choices they drive.
use vstd::prelude::*;

verus! {

/// Runtime options, set once and handed to whatever needs them.
#[derive(Clone, Copy, Debug, PartialEq, Eq, Structural)]
pub struct GameSettings {
    /// Post-process the rendered frame with the colour quantizer.
    pub color_quantize: bool,
    /// Draw meshes with the flat material rather than the standard one.
    pub flat: bool,
}

impl Default for GameSettings {
    /// Both options on.
    fn default() -> (s: Self)
        ensures
            s.color_quantize,
            s.flat,
    {
        GameSettings { color_quantize: true, flat: true }
    }
}

/// The material a mesh is drawn with.
#[derive(Clone, Copy, Debug, PartialEq, Eq, Structural)]
pub enum MaterialKind {
    Flat,
    Standard,
}

/// Whether a mesh follows the `flat` setting or keeps the material it was
/// created with; chosen once, when the mesh is created.
#[derive(Clone, Copy, Debug, PartialEq, Eq, Structural)]
pub enum MaterialMode {
    Dynamic,
    Fixed,
}

/// What the rendered frame is shown through.
#[derive(Clone, Copy, Debug, PartialEq, Eq, Structural)]
pub enum DisplayMaterial {
    Quantizer,
    Plain,
}

/// The material that the settings ask dynamic meshes to use.
pub open spec fn wanted_material(settings: GameSettings) -> MaterialKind {
    if settings.flat {
        MaterialKind::Flat
    } else {
        MaterialKind::Standard
    }
}

/// The material a mesh drawn with `current` must switch to under `settings`,
/// or `None` when it keeps its material: fixed meshes never switch, dynamic
/// ones switch when they differ from what the settings ask for.
pub fn set_materials(settings: GameSettings, current: MaterialKind, mode: MaterialMode) -> (r:
    Option<MaterialKind>)
    ensures
        r is Some <==> (mode == MaterialMode::Dynamic && current != wanted_material(settings)),
        r matches Some(k) ==> k == wanted_material(settings),
{
    match mode {
        MaterialMode::Fixed => None,
        MaterialMode::Dynamic => {
            let wanted = if settings.flat {
                MaterialKind::Flat
            } else {
                MaterialKind::Standard
            };
            if current == wanted {
                None
            } else {
                Some(wanted)
            }
        },
    }
}

/// Picks how the rendered frame is displayed: through the quantizer when the
/// settings ask for it and the platform supports it, else plainly. The
/// returned settings record the choice in `color_quantize`.
pub fn choose_display(settings: GameSettings, quantizer_supported: bool) -> (r: (
    DisplayMaterial,
    GameSettings,
))
    ensures
        r.0 == (if settings.color_quantize && quantizer_supported {
            DisplayMaterial::Quantizer
        } else {
            DisplayMaterial::Plain
        }),
        r.1.color_quantize == (r.0 == DisplayMaterial::Quantizer),
        r.1.flat == settings.flat,
{
    if quantizer_supported && settings.color_quantize {
        (DisplayMaterial::Quantizer, GameSettings { color_quantize: true, ..settings })
    } else {
        (DisplayMaterial::Plain, GameSettings { color_quantize: false, ..settings })
    }
}

/// The size of the largest rectangle with the game's aspect ratio that fits
/// the window: the game size scaled by the smaller of the two window-to-game
/// ratios, rounded down.
pub fn fit_display(window_w: u32, window_h: u32, game_w: u32, game_h: u32) -> (r: (u64, u64))
    requires
        game_w > 0,
        game_h > 0,
    ensures
        window_w * game_h <= window_h * game_w ==> r == (
            window_w as u64,
            ((game_h * window_w) / (game_w as int)) as u64,
        ),
        window_w * game_h > window_h * game_w ==> r == (
            ((game_w * window_h) / (game_h as int)) as u64,
            window_h as u64,
        ),
{
    let ww = window_w as u64;
    let wh = window_h as u64;
    let gw = game_w as u64;
    let gh = game_h as u64;
    assert(ww * gh <= 0xFFFF_FFFF * 0xFFFF_FFFF && wh * gw <= 0xFFFF_FFFF * 0xFFFF_FFFF)
        by (nonlinear_arith)
        requires ww <= 0xFFFF_FFFF, gh <= 0xFFFF_FFFF, wh <= 0xFFFF_FFFF, gw <= 0xFFFF_FFFF;
    assert(ww * gh >= 0 && wh * gw >= 0) by (nonlinear_arith)
        requires ww >= 0, gh >= 0, wh >= 0, gw >= 0;
    if ww * gh <= wh * gw {
        (ww, (gh * ww) / gw)
    } else {
        ((gw * wh) / gh, wh)
    }
}

} // verus!
