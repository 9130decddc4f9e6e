use vstd::prelude::*;

use crate::text::str_eq;

verus! {

/// The structural stylesheet shared by every theme.
pub open spec fn common_css_view() -> Seq<char> {
    "
    /* Global Variables */
    @define-color border_radius 6px;

    /* Base Elements */
    window, box, grid, paned {
        /* Inherit from theme */
    }

    /* Consistent Border Radius */
    button, entry, .card, .sidebar-item, .boxed-list, menu, popover {
        border-radius: 6px;
    }

    /* Sidebar Styling - Boxed & Lean */
    .sidebar {
        background-color: @theme_bg_color; /* Or a slight shade darker if possible */
    }

    .sidebar-row {
        background: transparent;
        border: none;
        padding: 0;
    }

    .sidebar-item {
        background-color: transparent;
        color: @theme_fg_color;
        border: 1px solid transparent;
        padding: 6px 10px;
        transition: all 200ms ease;
    }
    
    .sidebar-item:hover {
        background-color: alpha(@theme_fg_color, 0.05);
    }
    
    .sidebar-item:selected, .sidebar-item.selected {
        background-color: @theme_selected_bg_color;
        color: @theme_selected_fg_color;
        border: 1px solid @theme_selected_bg_color; /* Ensure it looks boxed */
    }

    /* Buttons */
    button {
        min-height: 24px; /* Thinner */
        padding: 2px 8px;
        border: 1px solid alpha(currentColor, 0.15);
        background-image: none;
        box-shadow: none;
    }
    
    button:hover {
        background-color: alpha(currentColor, 0.05);
    }
    
    button.flat {
        border-color: transparent;
        background-color: transparent;
    }

    /* Entries */
    entry {
        min-height: 28px;
        padding: 2px 6px;
        border: 1px solid alpha(currentColor, 0.15);
        background-image: none;
        box-shadow: none;
    }
    
    /* Headers */
    .title-label {
        font-weight: 800;
        font-size: 14pt;
        letter-spacing: -0.5px;
    }

    /* Dim Label */
    .dim-label {
        opacity: 0.5;
        font-weight: 600;
        font-size: 9pt;
        text-transform: uppercase;
        letter-spacing: 0.5px;
    }
    
    /* Scrollbars */
    scrollbar slider {
        min-width: 4px;
        border-radius: 10px;
    }
    "@
}

/// The color overrides of the forced dark theme.
pub open spec fn dark_overrides_view() -> Seq<char> {
    "
    @define-color theme_bg_color #1e1e2e;
    @define-color theme_fg_color #cdd6f4;
    @define-color theme_selected_bg_color #89b4fa;
    @define-color theme_selected_fg_color #1e1e2e;
    
    window {
        color: #cdd6f4;
        background-color: #1e1e2e;
    }
    "@
}

pub fn common_css() -> (r: String)
    ensures
        r@ == common_css_view(),
{
    String::from_str("
    /* Global Variables */
    @define-color border_radius 6px;

    /* Base Elements */
    window, box, grid, paned {
        /* Inherit from theme */
    }

    /* Consistent Border Radius */
    button, entry, .card, .sidebar-item, .boxed-list, menu, popover {
        border-radius: 6px;
    }

    /* Sidebar Styling - Boxed & Lean */
    .sidebar {
        background-color: @theme_bg_color; /* Or a slight shade darker if possible */
    }

    .sidebar-row {
        background: transparent;
        border: none;
        padding: 0;
    }

    .sidebar-item {
        background-color: transparent;
        color: @theme_fg_color;
        border: 1px solid transparent;
        padding: 6px 10px;
        transition: all 200ms ease;
    }
    
    .sidebar-item:hover {
        background-color: alpha(@theme_fg_color, 0.05);
    }
    
    .sidebar-item:selected, .sidebar-item.selected {
        background-color: @theme_selected_bg_color;
        color: @theme_selected_fg_color;
        border: 1px solid @theme_selected_bg_color; /* Ensure it looks boxed */
    }

    /* Buttons */
    button {
        min-height: 24px; /* Thinner */
        padding: 2px 8px;
        border: 1px solid alpha(currentColor, 0.15);
        background-image: none;
        box-shadow: none;
    }
    
    button:hover {
        background-color: alpha(currentColor, 0.05);
    }
    
    button.flat {
        border-color: transparent;
        background-color: transparent;
    }

    /* Entries */
    entry {
        min-height: 28px;
        padding: 2px 6px;
        border: 1px solid alpha(currentColor, 0.15);
        background-image: none;
        box-shadow: none;
    }
    
    /* Headers */
    .title-label {
        font-weight: 800;
        font-size: 14pt;
        letter-spacing: -0.5px;
    }

    /* Dim Label */
    .dim-label {
        opacity: 0.5;
        font-weight: 600;
        font-size: 9pt;
        text-transform: uppercase;
        letter-spacing: 0.5px;
    }
    
    /* Scrollbars */
    scrollbar slider {
        min-width: 4px;
        border-radius: 10px;
    }
    ")
}

pub fn dark_overrides() -> (r: String)
    ensures
        r@ == dark_overrides_view(),
{
    String::from_str("
    @define-color theme_bg_color #1e1e2e;
    @define-color theme_fg_color #cdd6f4;
    @define-color theme_selected_bg_color #89b4fa;
    @define-color theme_selected_fg_color #1e1e2e;
    
    window {
        color: #cdd6f4;
        background-color: #1e1e2e;
    }
    ")
}

/// The stylesheet of a theme: the forced dark theme prepends its color
/// overrides to the shared structural stylesheet; anything else gets
/// the structural stylesheet alone.
pub fn get_theme_css(theme_name: &str) -> (r: String)
    ensures
        r@ == (if theme_name@ == "Dark"@ {
            dark_overrides_view() + common_css_view()
        } else {
            common_css_view()
        }),
{
    if str_eq(theme_name, "Dark") {
        let d = dark_overrides();
        let c = common_css();
        d.concat(c.as_str())
    } else {
        common_css()
    }
}

/// The selectable themes.
pub fn get_all_themes() -> (r: Vec<&'static str>)
    ensures
        r@.len() == 2,
        r@[0]@ == "System"@,
        r@[1]@ == "Dark"@,
{
    let mut v: Vec<&'static str> = Vec::new();
    v.push("System");
    v.push("Dark");
    v
}

} // verus!
