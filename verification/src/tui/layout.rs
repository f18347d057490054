//! Responsive terminal geometry.

use vstd::prelude::*;

verus! {

/// A rectangle of terminal cells.
#[derive(Debug, Clone, Copy, PartialEq, Eq, Default)]
pub struct Rect {
    /// Left column.
    pub x: u16,
    /// Top row.
    pub y: u16,
    /// Width in columns.
    pub width: u16,
    /// Height in rows.
    pub height: u16,
}

impl Rect {
    /// A rectangle from its corner and size.
    pub fn new(x: u16, y: u16, width: u16, height: u16) -> (r: Self)
        ensures
            r == (Rect { x, y, width, height }),
    {
        Rect { x, y, width, height }
    }
}

/// How many panes a terminal of some size shows.
#[derive(Debug, Clone, Copy, PartialEq, Eq)]
pub enum LayoutClass {
    /// Catalog, preview and metadata side by side.
    ThreePane,
    /// Catalog and preview side by side.
    TwoPane,
    /// One pane at a time.
    SinglePane,
    /// The smallest terminals: one pane, nothing else.
    Focused,
}

/// The layout class of a terminal size.
pub open spec fn class_for(width: u16, height: u16) -> LayoutClass {
    if width < 60 || height < 16 {
        LayoutClass::Focused
    } else if width >= 140 && height >= 32 {
        LayoutClass::ThreePane
    } else if width >= 90 && height >= 24 {
        LayoutClass::TwoPane
    } else {
        LayoutClass::SinglePane
    }
}

impl LayoutClass {
    /// Below 60 columns or 16 rows: focused; from 140 by 32: three panes; from 90 by 24: two
    /// panes; otherwise one.
    pub fn for_size(width: u16, height: u16) -> (c: Self)
        ensures
            c == class_for(width, height),
    {
        if width < 60 || height < 16 {
            LayoutClass::Focused
        } else if width >= 140 && height >= 32 {
            LayoutClass::ThreePane
        } else if width >= 90 && height >= 24 {
            LayoutClass::TwoPane
        } else {
            LayoutClass::SinglePane
        }
    }
}

/// Where each pane goes.
#[derive(Debug, Clone, Copy, PartialEq, Eq)]
pub struct Layout {
    /// Layout class.
    pub class: LayoutClass,
    /// Area above the status line.
    pub content: Rect,
    /// Catalog pane.
    pub catalog: Option<Rect>,
    /// Preview pane.
    pub preview: Option<Rect>,
    /// Metadata pane.
    pub metadata: Option<Rect>,
    /// Status line.
    pub status: Rect,
}

/// `a - b`, or 0 below zero.
pub open spec fn sat_sub(a: int, b: int) -> int {
    if a >= b {
        a - b
    } else {
        0
    }
}

/// `a + b`, capped at `u16::MAX`.
pub open spec fn sat_add_u16(a: int, b: int) -> int {
    if a + b > u16::MAX {
        u16::MAX as int
    } else {
        a + b
    }
}

/// The layout of an area: the last row (if any) is the status line, and the rest is split by
/// class: 34% catalog, 22% metadata and the preview between them; or 38% catalog and the
/// preview; or the catalog alone.
pub open spec fn layout_of(area: Rect) -> Layout {
    let class = class_for(area.width, area.height);
    let status_height: int = if area.height == 0 { 0 } else { 1 };
    let ch = area.height - status_height;
    let content = Rect { x: area.x, y: area.y, width: area.width, height: ch as u16 };
    let status = Rect {
        x: area.x,
        y: sat_add_u16(area.y as int, ch) as u16,
        width: area.width,
        height: status_height as u16,
    };
    match class {
        LayoutClass::ThreePane => {
            let catalog = content.width * 34 / 100;
            let metadata = content.width * 22 / 100;
            let preview = sat_sub(sat_sub(content.width as int, catalog), metadata);
            Layout {
                class,
                content,
                catalog: Some(Rect { x: content.x, y: content.y, width: catalog as u16, height: content.height }),
                preview: Some(Rect { x: sat_add_u16(content.x as int, catalog) as u16, y: content.y, width: preview as u16, height: content.height }),
                metadata: Some(
                    Rect {
                        x: sat_add_u16(sat_add_u16(content.x as int, catalog), preview) as u16,
                        y: content.y,
                        width: metadata as u16,
                        height: content.height,
                    },
                ),
                status,
            }
        },
        LayoutClass::TwoPane => {
            let catalog = content.width * 38 / 100;
            Layout {
                class,
                content,
                catalog: Some(Rect { x: content.x, y: content.y, width: catalog as u16, height: content.height }),
                preview: Some(Rect { x: sat_add_u16(content.x as int, catalog) as u16, y: content.y, width: (content.width - catalog) as u16, height: content.height }),
                metadata: None,
                status,
            }
        },
        _ => Layout { class, content, catalog: Some(content), preview: None, metadata: None, status },
    }
}

impl Layout {
    /// Computes the layout of an area; positions past the end of the coordinate range
    /// saturate.
    pub fn compute(area: Rect) -> (l: Self)
        ensures
            l == layout_of(area),
    {
        let class = LayoutClass::for_size(area.width, area.height);
        let status_height: u16 = if area.height == 0 { 0 } else { 1 };
        let content = Rect::new(area.x, area.y, area.width, area.height - status_height);
        let status = Rect::new(area.x, area.y.saturating_add(content.height), area.width, status_height);
        match class {
            LayoutClass::ThreePane => {
                let w = content.width as u32;
                let catalog = (w * 34 / 100) as u16;
                let metadata = (w * 22 / 100) as u16;
                let preview = content.width.saturating_sub(catalog).saturating_sub(metadata);
                Layout {
                    class,
                    content,
                    catalog: Some(Rect::new(content.x, content.y, catalog, content.height)),
                    preview: Some(Rect::new(content.x.saturating_add(catalog), content.y, preview, content.height)),
                    metadata: Some(Rect::new(content.x.saturating_add(catalog).saturating_add(preview), content.y, metadata, content.height)),
                    status,
                }
            },
            LayoutClass::TwoPane => {
                let w = content.width as u32;
                let catalog = (w * 38 / 100) as u16;
                Layout {
                    class,
                    content,
                    catalog: Some(Rect::new(content.x, content.y, catalog, content.height)),
                    preview: Some(Rect::new(content.x.saturating_add(catalog), content.y, content.width - catalog, content.height)),
                    metadata: None,
                    status,
                }
            },
            _ => Layout { class, content, catalog: Some(content), preview: None, metadata: None, status },
        }
    }
}

} // verus!
