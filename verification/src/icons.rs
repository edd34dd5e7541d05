//! The interface's monochrome vector icons. Every path lives on a square
//! grid of 24 units, drawn with an inset for the stroke, so an icon can be
//! scaled to any pixel size and tinted with the text colour.
use vstd::prelude::*;

verus! {

/// A coordinate on the icon grid, in 24ths of the icon's side.
#[derive(Clone, Copy, Debug, PartialEq, Eq, Structural)]
pub struct GridCoord(pub i8);

#[derive(Clone, Copy, Debug, PartialEq, Eq)]
pub enum PolyCommand {
    MoveTo(GridCoord, GridCoord),
    LineTo(GridCoord, GridCoord),
    QuadTo { control: (GridCoord, GridCoord), to: (GridCoord, GridCoord) },
    Circle { center: (GridCoord, GridCoord), radius: GridCoord },
    Close,
}

#[derive(Clone, Copy, Debug, PartialEq, Eq, Structural)]
pub enum PolyStyle {
    Outline,
    Fill,
}

/// One path of an icon, stroked or filled.
#[derive(Clone, Debug)]
pub struct Poly {
    pub path: Vec<PolyCommand>,
    pub style: PolyStyle,
}

#[derive(Debug, Clone, Copy, PartialEq, Eq, Structural)]
pub enum Icon {
    Menu,
    Hosts,
    Key,
    Terminal,
    Search,
    Plus,
    Close,
    ChevronLeft,
    ChevronRight,
    ChevronDown,
    ChevronUp,
    Minimize,
    Maximize,
    Restore,
    Grid,
    List,
    Folder,
    Edit,
    Check,
    Checkbox,
    CheckboxChecked,
    Broadcast,
    SplitRight,
    SplitDown,
    ArrowLeft,
    ArrowRight,
    Settings,
    More,
    Link,
    Power,
}

pub open spec fn in_grid(c: GridCoord) -> bool {
    0 <= c.0 <= 24
}

pub open spec fn point_in_grid(p: (GridCoord, GridCoord)) -> bool {
    in_grid(p.0) && in_grid(p.1)
}

/// A circle stays one unit inside the grid on every side.
pub open spec fn circle_inside(center: (GridCoord, GridCoord), radius: GridCoord) -> bool {
    &&& radius.0 > 0
    &&& center.0.0 - radius.0 >= 1 && center.0.0 + radius.0 <= 23
    &&& center.1.0 - radius.0 >= 1 && center.1.0 + radius.0 <= 23
}

/// Whether a path has moved to a starting point.
pub open spec fn started(path: Seq<PolyCommand>) -> bool
    decreases path.len(),
{
    path.len() > 0 && (path.last() is MoveTo || started(path.drop_last()))
}

/// A command is drawable: its points lie on the grid, circles stay inside
/// it, and lines, curves and closes only follow a starting point.
pub open spec fn command_ok(c: PolyCommand, has_start: bool) -> bool {
    match c {
        PolyCommand::MoveTo(x, y) => in_grid(x) && in_grid(y),
        PolyCommand::LineTo(x, y) => has_start && in_grid(x) && in_grid(y),
        PolyCommand::QuadTo { control, to } => has_start && point_in_grid(control) && point_in_grid(to),
        PolyCommand::Circle { center, radius } => point_in_grid(center) && circle_inside(center, radius),
        PolyCommand::Close => has_start,
    }
}

pub open spec fn path_ok(path: Seq<PolyCommand>) -> bool
    decreases path.len(),
{
    path.len() == 0 || (path_ok(path.drop_last()) && command_ok(path.last(), started(path.drop_last())))
}

pub open spec fn poly_ok(poly: Poly) -> bool {
    poly.path@.len() > 0 && path_ok(poly.path@)
}

/// An icon has at least one path, and every path is drawable.
pub open spec fn icon_ok(icon: Seq<Poly>) -> bool {
    icon.len() > 0 && forall|k: int| 0 <= k < icon.len() ==> #[trigger] poly_ok(icon[k])
}

/// The commands and style of each path of an icon.
pub open spec fn shapes(icon: Seq<Poly>) -> Seq<(Seq<PolyCommand>, PolyStyle)> {
    icon.map_values(|p: Poly| (p.path@, p.style))
}

pub open spec fn move_to(x: i8, y: i8) -> PolyCommand {
    PolyCommand::MoveTo(GridCoord(x), GridCoord(y))
}

pub open spec fn line_to(x: i8, y: i8) -> PolyCommand {
    PolyCommand::LineTo(GridCoord(x), GridCoord(y))
}

pub open spec fn quad_to(cx: i8, cy: i8, x: i8, y: i8) -> PolyCommand {
    PolyCommand::QuadTo { control: (GridCoord(cx), GridCoord(cy)), to: (GridCoord(x), GridCoord(y)) }
}

pub open spec fn circle_at(x: i8, y: i8, radius: i8) -> PolyCommand {
    PolyCommand::Circle { center: (GridCoord(x), GridCoord(y)), radius: GridCoord(radius) }
}

/// The path of the shared frame shape.
pub open spec fn frame_shape() -> (Seq<PolyCommand>, PolyStyle) {
    (seq![move_to(6, 4), line_to(18, 4), quad_to(20, 4, 20, 6), line_to(20, 18), quad_to(20, 20, 18, 20), line_to(6, 20), quad_to(4, 20, 4, 18), line_to(4, 6), quad_to(4, 4, 6, 4), PolyCommand::Close], PolyStyle::Outline)
}
/// The path of the shared tick shape.
pub open spec fn tick_shape() -> (Seq<PolyCommand>, PolyStyle) {
    (seq![move_to(7, 12), line_to(10, 15), line_to(17, 8)], PolyStyle::Outline)
}
pub open spec fn menu_table() -> Seq<(Seq<PolyCommand>, PolyStyle)> {
    seq![(seq![move_to(4, 6), line_to(20, 6), move_to(4, 12), line_to(20, 12), move_to(4, 18), line_to(20, 18)], PolyStyle::Outline)]
}
pub open spec fn hosts_table() -> Seq<(Seq<PolyCommand>, PolyStyle)> {
    seq![(seq![move_to(5, 3), line_to(19, 3), quad_to(21, 3, 21, 5), line_to(21, 9), quad_to(21, 11, 19, 11), line_to(5, 11), quad_to(3, 11, 3, 9), line_to(3, 5), quad_to(3, 3, 5, 3), PolyCommand::Close, move_to(5, 13), line_to(19, 13), quad_to(21, 13, 21, 15), line_to(21, 19), quad_to(21, 21, 19, 21), line_to(5, 21), quad_to(3, 21, 3, 19), line_to(3, 15), quad_to(3, 13, 5, 13), PolyCommand::Close, move_to(11, 7), line_to(17, 7), move_to(11, 17), line_to(17, 17)], PolyStyle::Outline), (seq![circle_at(7, 7, 1), circle_at(7, 17, 1)], PolyStyle::Fill)]
}
pub open spec fn key_table() -> Seq<(Seq<PolyCommand>, PolyStyle)> {
    seq![(seq![circle_at(8, 8, 5), move_to(12, 12), line_to(21, 21), move_to(16, 16), line_to(19, 13), move_to(19, 19), line_to(22, 16)], PolyStyle::Outline)]
}
pub open spec fn terminal_table() -> Seq<(Seq<PolyCommand>, PolyStyle)> {
    seq![(seq![move_to(5, 4), line_to(19, 4), quad_to(21, 4, 21, 6), line_to(21, 18), quad_to(21, 20, 19, 20), line_to(5, 20), quad_to(3, 20, 3, 18), line_to(3, 6), quad_to(3, 4, 5, 4), PolyCommand::Close, move_to(7, 8), line_to(11, 12), line_to(7, 16), move_to(13, 16), line_to(17, 16)], PolyStyle::Outline)]
}
pub open spec fn search_table() -> Seq<(Seq<PolyCommand>, PolyStyle)> {
    seq![(seq![circle_at(10, 10, 6), move_to(15, 15), line_to(21, 21)], PolyStyle::Outline)]
}
pub open spec fn plus_table() -> Seq<(Seq<PolyCommand>, PolyStyle)> {
    seq![(seq![move_to(12, 5), line_to(12, 19), move_to(5, 12), line_to(19, 12)], PolyStyle::Outline)]
}
pub open spec fn close_table() -> Seq<(Seq<PolyCommand>, PolyStyle)> {
    seq![(seq![move_to(6, 6), line_to(18, 18), move_to(18, 6), line_to(6, 18)], PolyStyle::Outline)]
}
pub open spec fn chevron_left_table() -> Seq<(Seq<PolyCommand>, PolyStyle)> {
    seq![(seq![move_to(15, 5), line_to(8, 12), line_to(15, 19)], PolyStyle::Outline)]
}
pub open spec fn chevron_right_table() -> Seq<(Seq<PolyCommand>, PolyStyle)> {
    seq![(seq![move_to(9, 5), line_to(16, 12), line_to(9, 19)], PolyStyle::Outline)]
}
pub open spec fn chevron_down_table() -> Seq<(Seq<PolyCommand>, PolyStyle)> {
    seq![(seq![move_to(5, 9), line_to(12, 16), line_to(19, 9)], PolyStyle::Outline)]
}
pub open spec fn chevron_up_table() -> Seq<(Seq<PolyCommand>, PolyStyle)> {
    seq![(seq![move_to(5, 15), line_to(12, 8), line_to(19, 15)], PolyStyle::Outline)]
}
pub open spec fn power_table() -> Seq<(Seq<PolyCommand>, PolyStyle)> {
    seq![(seq![move_to(12, 3), line_to(12, 11), move_to(6, 5), quad_to(3, 8, 3, 12), quad_to(3, 21, 12, 21), quad_to(21, 21, 21, 12), quad_to(21, 8, 18, 5)], PolyStyle::Outline)]
}
pub open spec fn minimize_table() -> Seq<(Seq<PolyCommand>, PolyStyle)> {
    seq![(seq![move_to(5, 12), line_to(19, 12)], PolyStyle::Outline)]
}
pub open spec fn maximize_table() -> Seq<(Seq<PolyCommand>, PolyStyle)> {
    seq![frame_shape()]
}
pub open spec fn restore_table() -> Seq<(Seq<PolyCommand>, PolyStyle)> {
    seq![(seq![move_to(8, 7), line_to(8, 4), line_to(20, 4), line_to(20, 16), line_to(17, 16), move_to(4, 8), line_to(16, 8), line_to(16, 20), line_to(4, 20), PolyCommand::Close], PolyStyle::Outline)]
}
pub open spec fn grid_table() -> Seq<(Seq<PolyCommand>, PolyStyle)> {
    seq![(seq![move_to(4, 4), line_to(10, 4), line_to(10, 10), line_to(4, 10), PolyCommand::Close, move_to(14, 4), line_to(20, 4), line_to(20, 10), line_to(14, 10), PolyCommand::Close, move_to(4, 14), line_to(10, 14), line_to(10, 20), line_to(4, 20), PolyCommand::Close, move_to(14, 14), line_to(20, 14), line_to(20, 20), line_to(14, 20), PolyCommand::Close], PolyStyle::Outline)]
}
pub open spec fn list_table() -> Seq<(Seq<PolyCommand>, PolyStyle)> {
    seq![(seq![move_to(9, 6), line_to(21, 6), move_to(9, 12), line_to(21, 12), move_to(9, 18), line_to(21, 18)], PolyStyle::Outline), (seq![circle_at(4, 6, 1), circle_at(4, 12, 1), circle_at(4, 18, 1)], PolyStyle::Fill)]
}
pub open spec fn folder_table() -> Seq<(Seq<PolyCommand>, PolyStyle)> {
    seq![(seq![move_to(3, 7), quad_to(3, 5, 5, 5), line_to(10, 5), line_to(12, 8), line_to(19, 8), quad_to(21, 8, 21, 10), line_to(21, 18), quad_to(21, 20, 19, 20), line_to(5, 20), quad_to(3, 20, 3, 18), PolyCommand::Close], PolyStyle::Outline)]
}
pub open spec fn edit_table() -> Seq<(Seq<PolyCommand>, PolyStyle)> {
    seq![(seq![move_to(4, 15), line_to(15, 4), quad_to(17, 2, 19, 4), line_to(20, 5), quad_to(22, 7, 20, 9), line_to(9, 20), line_to(3, 21), PolyCommand::Close, move_to(13, 6), line_to(18, 11), move_to(4, 15), line_to(9, 20)], PolyStyle::Outline)]
}
pub open spec fn check_table() -> Seq<(Seq<PolyCommand>, PolyStyle)> {
    seq![(seq![move_to(4, 12), line_to(9, 17), line_to(20, 6)], PolyStyle::Outline)]
}
pub open spec fn checkbox_table() -> Seq<(Seq<PolyCommand>, PolyStyle)> {
    seq![frame_shape()]
}
pub open spec fn checkbox_checked_table() -> Seq<(Seq<PolyCommand>, PolyStyle)> {
    seq![frame_shape(), tick_shape()]
}
pub open spec fn broadcast_table() -> Seq<(Seq<PolyCommand>, PolyStyle)> {
    seq![(seq![move_to(5, 4), quad_to(1, 8, 2, 13), quad_to(2, 16, 5, 19), move_to(19, 4), quad_to(23, 8, 22, 13), quad_to(22, 16, 19, 19), move_to(8, 7), quad_to(4, 11, 8, 15), move_to(16, 7), quad_to(20, 11, 16, 15), move_to(12, 14), line_to(12, 21), move_to(8, 21), line_to(16, 21)], PolyStyle::Outline), (seq![circle_at(12, 11, 2)], PolyStyle::Fill)]
}
pub open spec fn split_right_table() -> Seq<(Seq<PolyCommand>, PolyStyle)> {
    seq![frame_shape(), (seq![move_to(12, 4), line_to(12, 20)], PolyStyle::Outline)]
}
pub open spec fn split_down_table() -> Seq<(Seq<PolyCommand>, PolyStyle)> {
    seq![frame_shape(), (seq![move_to(4, 12), line_to(20, 12)], PolyStyle::Outline)]
}
pub open spec fn arrow_left_table() -> Seq<(Seq<PolyCommand>, PolyStyle)> {
    seq![(seq![move_to(11, 5), line_to(4, 12), line_to(11, 19), move_to(4, 12), line_to(21, 12)], PolyStyle::Outline)]
}
pub open spec fn arrow_right_table() -> Seq<(Seq<PolyCommand>, PolyStyle)> {
    seq![(seq![move_to(13, 5), line_to(20, 12), line_to(13, 19), move_to(20, 12), line_to(3, 12)], PolyStyle::Outline)]
}
pub open spec fn settings_table() -> Seq<(Seq<PolyCommand>, PolyStyle)> {
    seq![(seq![move_to(3, 6), line_to(8, 6), move_to(12, 6), line_to(21, 6), circle_at(10, 6, 2), move_to(3, 12), line_to(13, 12), move_to(17, 12), line_to(21, 12), circle_at(15, 12, 2), move_to(3, 18), line_to(6, 18), move_to(10, 18), line_to(21, 18), circle_at(8, 18, 2)], PolyStyle::Outline)]
}
pub open spec fn more_table() -> Seq<(Seq<PolyCommand>, PolyStyle)> {
    seq![(seq![circle_at(5, 12, 1), circle_at(12, 12, 1), circle_at(19, 12, 1)], PolyStyle::Fill)]
}
pub open spec fn link_table() -> Seq<(Seq<PolyCommand>, PolyStyle)> {
    seq![(seq![move_to(10, 8), line_to(13, 5), quad_to(17, 1, 21, 5), quad_to(24, 9, 20, 12), line_to(17, 15), move_to(14, 16), line_to(11, 19), quad_to(7, 23, 3, 19), quad_to(0, 15, 4, 12), line_to(7, 9), move_to(8, 16), line_to(16, 8)], PolyStyle::Outline)]
}
/// The paths of each icon, with their styles.
pub open spec fn icon_table(icon: Icon) -> Seq<(Seq<PolyCommand>, PolyStyle)> {
    match icon {
        Icon::Menu => menu_table(),
        Icon::Hosts => hosts_table(),
        Icon::Key => key_table(),
        Icon::Terminal => terminal_table(),
        Icon::Search => search_table(),
        Icon::Plus => plus_table(),
        Icon::Close => close_table(),
        Icon::ChevronLeft => chevron_left_table(),
        Icon::ChevronRight => chevron_right_table(),
        Icon::ChevronDown => chevron_down_table(),
        Icon::ChevronUp => chevron_up_table(),
        Icon::Minimize => minimize_table(),
        Icon::Maximize => maximize_table(),
        Icon::Restore => restore_table(),
        Icon::Grid => grid_table(),
        Icon::List => list_table(),
        Icon::Folder => folder_table(),
        Icon::Edit => edit_table(),
        Icon::Check => check_table(),
        Icon::Checkbox => checkbox_table(),
        Icon::CheckboxChecked => checkbox_checked_table(),
        Icon::Broadcast => broadcast_table(),
        Icon::SplitRight => split_right_table(),
        Icon::SplitDown => split_down_table(),
        Icon::ArrowLeft => arrow_left_table(),
        Icon::ArrowRight => arrow_right_table(),
        Icon::Settings => settings_table(),
        Icon::More => more_table(),
        Icon::Link => link_table(),
        Icon::Power => power_table(),
    }
}

impl Icon {
    /// The paths of the icon, as `icon_table` gives them; each is drawable
    /// (see `icon_ok`).
    pub fn poly(self) -> (icon: Vec<Poly>)
        ensures
            icon_ok(icon@),
            shapes(icon@) == icon_table(self),
    {
        match self {
            Icon::Menu => menu_icon(),
            Icon::Hosts => hosts_icon(),
            Icon::Key => key_icon(),
            Icon::Terminal => terminal_icon(),
            Icon::Search => search_icon(),
            Icon::Plus => plus_icon(),
            Icon::Close => close_icon(),
            Icon::ChevronLeft => chevron_left_icon(),
            Icon::ChevronRight => chevron_right_icon(),
            Icon::ChevronDown => chevron_down_icon(),
            Icon::ChevronUp => chevron_up_icon(),
            Icon::Minimize => minimize_icon(),
            Icon::Maximize => maximize_icon(),
            Icon::Restore => restore_icon(),
            Icon::Grid => grid_icon(),
            Icon::List => list_icon(),
            Icon::Folder => folder_icon(),
            Icon::Edit => edit_icon(),
            Icon::Check => check_icon(),
            Icon::Checkbox => checkbox_icon(),
            Icon::CheckboxChecked => checkbox_checked_icon(),
            Icon::Broadcast => broadcast_icon(),
            Icon::SplitRight => split_right_icon(),
            Icon::SplitDown => split_down_icon(),
            Icon::ArrowLeft => arrow_left_icon(),
            Icon::ArrowRight => arrow_right_icon(),
            Icon::Settings => settings_icon(),
            Icon::More => more_icon(),
            Icon::Link => link_icon(),
            Icon::Power => power_icon(),
        }
    }
}

pub fn coord(value: i8) -> (c: GridCoord)
    ensures
        c == GridCoord(value),
{
    GridCoord(value)
}

pub fn point(x: i8, y: i8) -> (p: (GridCoord, GridCoord))
    ensures
        p == (GridCoord(x), GridCoord(y)),
{
    (coord(x), coord(y))
}

pub fn m(x: i8, y: i8) -> (c: PolyCommand)
    ensures
        c == PolyCommand::MoveTo(GridCoord(x), GridCoord(y)),
{
    PolyCommand::MoveTo(coord(x), coord(y))
}

pub fn l(x: i8, y: i8) -> (c: PolyCommand)
    ensures
        c == PolyCommand::LineTo(GridCoord(x), GridCoord(y)),
{
    PolyCommand::LineTo(coord(x), coord(y))
}

pub fn q(cx: i8, cy: i8, x: i8, y: i8) -> (c: PolyCommand)
    ensures
        c == (PolyCommand::QuadTo { control: (GridCoord(cx), GridCoord(cy)), to: (GridCoord(x), GridCoord(y)) }),
{
    PolyCommand::QuadTo { control: point(cx, cy), to: point(x, y) }
}

pub fn circle(x: i8, y: i8, radius: i8) -> (c: PolyCommand)
    ensures
        c == (PolyCommand::Circle { center: (GridCoord(x), GridCoord(y)), radius: GridCoord(radius) }),
{
    PolyCommand::Circle { center: point(x, y), radius: coord(radius) }
}

pub fn close_path() -> (c: PolyCommand)
    ensures
        c == PolyCommand::Close,
{
    PolyCommand::Close
}

/// A path under construction; every command it takes must be drawable
/// where it stands.
pub struct PathBuilder {
    path: Vec<PolyCommand>,
}

impl PathBuilder {
    pub closed spec fn commands(&self) -> Seq<PolyCommand> {
        self.path@
    }

    pub fn new() -> (b: Self)
        ensures
            b.commands() == Seq::<PolyCommand>::empty(),
    {
        PathBuilder { path: Vec::new() }
    }

    pub fn push(&mut self, c: PolyCommand)
        requires
            path_ok(old(self).commands()),
            command_ok(c, started(old(self).commands())),
        ensures
            final(self).commands() == old(self).commands().push(c),
            path_ok(final(self).commands()),
            started(final(self).commands()) == (c is MoveTo || started(old(self).commands())),
    {
        let ghost before = self.path@;
        self.path.push(c);
        assert(self.path@.drop_last() =~= before);
    }
}

pub fn outline(p: PathBuilder) -> (poly: Poly)
    requires
        p.commands().len() > 0,
        path_ok(p.commands()),
    ensures
        poly_ok(poly),
        poly.path@ == p.commands(),
        poly.style == PolyStyle::Outline,
{
    Poly { path: p.path, style: PolyStyle::Outline }
}

pub fn fill(p: PathBuilder) -> (poly: Poly)
    requires
        p.commands().len() > 0,
        path_ok(p.commands()),
    ensures
        poly_ok(poly),
        poly.path@ == p.commands(),
        poly.style == PolyStyle::Fill,
{
    Poly { path: p.path, style: PolyStyle::Fill }
}

fn frame() -> (poly: Poly)
    ensures
        poly_ok(poly),
        (poly.path@, poly.style) == frame_shape(),
{
    let mut p = PathBuilder::new();
    p.push(m(6, 4));
    p.push(l(18, 4));
    p.push(q(20, 4, 20, 6));
    p.push(l(20, 18));
    p.push(q(20, 20, 18, 20));
    p.push(l(6, 20));
    p.push(q(4, 20, 4, 18));
    p.push(l(4, 6));
    p.push(q(4, 4, 6, 4));
    p.push(close_path());
    outline(p)
}

fn tick() -> (poly: Poly)
    ensures
        poly_ok(poly),
        (poly.path@, poly.style) == tick_shape(),
{
    let mut p = PathBuilder::new();
    p.push(m(7, 12));
    p.push(l(10, 15));
    p.push(l(17, 8));
    outline(p)
}

fn menu_icon() -> (icon: Vec<Poly>)
    ensures
        icon_ok(icon@),
        shapes(icon@) == menu_table(),
{
    let mut icon: Vec<Poly> = Vec::new();
    let poly = {
        let mut p = PathBuilder::new();
        p.push(m(4, 6));
        p.push(l(20, 6));
        p.push(m(4, 12));
        p.push(l(20, 12));
        p.push(m(4, 18));
        p.push(l(20, 18));
        outline(p)
    };
    icon.push(poly);
    assert(shapes(icon@) =~~= menu_table());
    icon
}

fn hosts_icon() -> (icon: Vec<Poly>)
    ensures
        icon_ok(icon@),
        shapes(icon@) == hosts_table(),
{
    let mut icon: Vec<Poly> = Vec::new();
    let poly = {
        let mut p = PathBuilder::new();
        p.push(m(5, 3));
        p.push(l(19, 3));
        p.push(q(21, 3, 21, 5));
        p.push(l(21, 9));
        p.push(q(21, 11, 19, 11));
        p.push(l(5, 11));
        p.push(q(3, 11, 3, 9));
        p.push(l(3, 5));
        p.push(q(3, 3, 5, 3));
        p.push(close_path());
        p.push(m(5, 13));
        p.push(l(19, 13));
        p.push(q(21, 13, 21, 15));
        p.push(l(21, 19));
        p.push(q(21, 21, 19, 21));
        p.push(l(5, 21));
        p.push(q(3, 21, 3, 19));
        p.push(l(3, 15));
        p.push(q(3, 13, 5, 13));
        p.push(close_path());
        p.push(m(11, 7));
        p.push(l(17, 7));
        p.push(m(11, 17));
        p.push(l(17, 17));
        outline(p)
    };
    icon.push(poly);
    let poly = {
        let mut p = PathBuilder::new();
        p.push(circle(7, 7, 1));
        p.push(circle(7, 17, 1));
        fill(p)
    };
    icon.push(poly);
    assert(shapes(icon@) =~~= hosts_table());
    icon
}

fn key_icon() -> (icon: Vec<Poly>)
    ensures
        icon_ok(icon@),
        shapes(icon@) == key_table(),
{
    let mut icon: Vec<Poly> = Vec::new();
    let poly = {
        let mut p = PathBuilder::new();
        p.push(circle(8, 8, 5));
        p.push(m(12, 12));
        p.push(l(21, 21));
        p.push(m(16, 16));
        p.push(l(19, 13));
        p.push(m(19, 19));
        p.push(l(22, 16));
        outline(p)
    };
    icon.push(poly);
    assert(shapes(icon@) =~~= key_table());
    icon
}

fn terminal_icon() -> (icon: Vec<Poly>)
    ensures
        icon_ok(icon@),
        shapes(icon@) == terminal_table(),
{
    let mut icon: Vec<Poly> = Vec::new();
    let poly = {
        let mut p = PathBuilder::new();
        p.push(m(5, 4));
        p.push(l(19, 4));
        p.push(q(21, 4, 21, 6));
        p.push(l(21, 18));
        p.push(q(21, 20, 19, 20));
        p.push(l(5, 20));
        p.push(q(3, 20, 3, 18));
        p.push(l(3, 6));
        p.push(q(3, 4, 5, 4));
        p.push(close_path());
        p.push(m(7, 8));
        p.push(l(11, 12));
        p.push(l(7, 16));
        p.push(m(13, 16));
        p.push(l(17, 16));
        outline(p)
    };
    icon.push(poly);
    assert(shapes(icon@) =~~= terminal_table());
    icon
}

fn search_icon() -> (icon: Vec<Poly>)
    ensures
        icon_ok(icon@),
        shapes(icon@) == search_table(),
{
    let mut icon: Vec<Poly> = Vec::new();
    let poly = {
        let mut p = PathBuilder::new();
        p.push(circle(10, 10, 6));
        p.push(m(15, 15));
        p.push(l(21, 21));
        outline(p)
    };
    icon.push(poly);
    assert(shapes(icon@) =~~= search_table());
    icon
}

fn plus_icon() -> (icon: Vec<Poly>)
    ensures
        icon_ok(icon@),
        shapes(icon@) == plus_table(),
{
    let mut icon: Vec<Poly> = Vec::new();
    let poly = {
        let mut p = PathBuilder::new();
        p.push(m(12, 5));
        p.push(l(12, 19));
        p.push(m(5, 12));
        p.push(l(19, 12));
        outline(p)
    };
    icon.push(poly);
    assert(shapes(icon@) =~~= plus_table());
    icon
}

fn close_icon() -> (icon: Vec<Poly>)
    ensures
        icon_ok(icon@),
        shapes(icon@) == close_table(),
{
    let mut icon: Vec<Poly> = Vec::new();
    let poly = {
        let mut p = PathBuilder::new();
        p.push(m(6, 6));
        p.push(l(18, 18));
        p.push(m(18, 6));
        p.push(l(6, 18));
        outline(p)
    };
    icon.push(poly);
    assert(shapes(icon@) =~~= close_table());
    icon
}

fn chevron_left_icon() -> (icon: Vec<Poly>)
    ensures
        icon_ok(icon@),
        shapes(icon@) == chevron_left_table(),
{
    let mut icon: Vec<Poly> = Vec::new();
    let poly = {
        let mut p = PathBuilder::new();
        p.push(m(15, 5));
        p.push(l(8, 12));
        p.push(l(15, 19));
        outline(p)
    };
    icon.push(poly);
    assert(shapes(icon@) =~~= chevron_left_table());
    icon
}

fn chevron_right_icon() -> (icon: Vec<Poly>)
    ensures
        icon_ok(icon@),
        shapes(icon@) == chevron_right_table(),
{
    let mut icon: Vec<Poly> = Vec::new();
    let poly = {
        let mut p = PathBuilder::new();
        p.push(m(9, 5));
        p.push(l(16, 12));
        p.push(l(9, 19));
        outline(p)
    };
    icon.push(poly);
    assert(shapes(icon@) =~~= chevron_right_table());
    icon
}

fn chevron_down_icon() -> (icon: Vec<Poly>)
    ensures
        icon_ok(icon@),
        shapes(icon@) == chevron_down_table(),
{
    let mut icon: Vec<Poly> = Vec::new();
    let poly = {
        let mut p = PathBuilder::new();
        p.push(m(5, 9));
        p.push(l(12, 16));
        p.push(l(19, 9));
        outline(p)
    };
    icon.push(poly);
    assert(shapes(icon@) =~~= chevron_down_table());
    icon
}

fn chevron_up_icon() -> (icon: Vec<Poly>)
    ensures
        icon_ok(icon@),
        shapes(icon@) == chevron_up_table(),
{
    let mut icon: Vec<Poly> = Vec::new();
    let poly = {
        let mut p = PathBuilder::new();
        p.push(m(5, 15));
        p.push(l(12, 8));
        p.push(l(19, 15));
        outline(p)
    };
    icon.push(poly);
    assert(shapes(icon@) =~~= chevron_up_table());
    icon
}

fn power_icon() -> (icon: Vec<Poly>)
    ensures
        icon_ok(icon@),
        shapes(icon@) == power_table(),
{
    let mut icon: Vec<Poly> = Vec::new();
    let poly = {
        let mut p = PathBuilder::new();
        p.push(m(12, 3));
        p.push(l(12, 11));
        p.push(m(6, 5));
        p.push(q(3, 8, 3, 12));
        p.push(q(3, 21, 12, 21));
        p.push(q(21, 21, 21, 12));
        p.push(q(21, 8, 18, 5));
        outline(p)
    };
    icon.push(poly);
    assert(shapes(icon@) =~~= power_table());
    icon
}

fn minimize_icon() -> (icon: Vec<Poly>)
    ensures
        icon_ok(icon@),
        shapes(icon@) == minimize_table(),
{
    let mut icon: Vec<Poly> = Vec::new();
    let poly = {
        let mut p = PathBuilder::new();
        p.push(m(5, 12));
        p.push(l(19, 12));
        outline(p)
    };
    icon.push(poly);
    assert(shapes(icon@) =~~= minimize_table());
    icon
}

fn maximize_icon() -> (icon: Vec<Poly>)
    ensures
        icon_ok(icon@),
        shapes(icon@) == maximize_table(),
{
    let mut icon: Vec<Poly> = Vec::new();
    icon.push(frame());
    assert(shapes(icon@) =~~= maximize_table());
    icon
}

fn restore_icon() -> (icon: Vec<Poly>)
    ensures
        icon_ok(icon@),
        shapes(icon@) == restore_table(),
{
    let mut icon: Vec<Poly> = Vec::new();
    let poly = {
        let mut p = PathBuilder::new();
        p.push(m(8, 7));
        p.push(l(8, 4));
        p.push(l(20, 4));
        p.push(l(20, 16));
        p.push(l(17, 16));
        p.push(m(4, 8));
        p.push(l(16, 8));
        p.push(l(16, 20));
        p.push(l(4, 20));
        p.push(close_path());
        outline(p)
    };
    icon.push(poly);
    assert(shapes(icon@) =~~= restore_table());
    icon
}

fn grid_icon() -> (icon: Vec<Poly>)
    ensures
        icon_ok(icon@),
        shapes(icon@) == grid_table(),
{
    let mut icon: Vec<Poly> = Vec::new();
    let poly = {
        let mut p = PathBuilder::new();
        p.push(m(4, 4));
        p.push(l(10, 4));
        p.push(l(10, 10));
        p.push(l(4, 10));
        p.push(close_path());
        p.push(m(14, 4));
        p.push(l(20, 4));
        p.push(l(20, 10));
        p.push(l(14, 10));
        p.push(close_path());
        p.push(m(4, 14));
        p.push(l(10, 14));
        p.push(l(10, 20));
        p.push(l(4, 20));
        p.push(close_path());
        p.push(m(14, 14));
        p.push(l(20, 14));
        p.push(l(20, 20));
        p.push(l(14, 20));
        p.push(close_path());
        outline(p)
    };
    icon.push(poly);
    assert(shapes(icon@) =~~= grid_table());
    icon
}

fn list_icon() -> (icon: Vec<Poly>)
    ensures
        icon_ok(icon@),
        shapes(icon@) == list_table(),
{
    let mut icon: Vec<Poly> = Vec::new();
    let poly = {
        let mut p = PathBuilder::new();
        p.push(m(9, 6));
        p.push(l(21, 6));
        p.push(m(9, 12));
        p.push(l(21, 12));
        p.push(m(9, 18));
        p.push(l(21, 18));
        outline(p)
    };
    icon.push(poly);
    let poly = {
        let mut p = PathBuilder::new();
        p.push(circle(4, 6, 1));
        p.push(circle(4, 12, 1));
        p.push(circle(4, 18, 1));
        fill(p)
    };
    icon.push(poly);
    assert(shapes(icon@) =~~= list_table());
    icon
}

fn folder_icon() -> (icon: Vec<Poly>)
    ensures
        icon_ok(icon@),
        shapes(icon@) == folder_table(),
{
    let mut icon: Vec<Poly> = Vec::new();
    let poly = {
        let mut p = PathBuilder::new();
        p.push(m(3, 7));
        p.push(q(3, 5, 5, 5));
        p.push(l(10, 5));
        p.push(l(12, 8));
        p.push(l(19, 8));
        p.push(q(21, 8, 21, 10));
        p.push(l(21, 18));
        p.push(q(21, 20, 19, 20));
        p.push(l(5, 20));
        p.push(q(3, 20, 3, 18));
        p.push(close_path());
        outline(p)
    };
    icon.push(poly);
    assert(shapes(icon@) =~~= folder_table());
    icon
}

fn edit_icon() -> (icon: Vec<Poly>)
    ensures
        icon_ok(icon@),
        shapes(icon@) == edit_table(),
{
    let mut icon: Vec<Poly> = Vec::new();
    let poly = {
        let mut p = PathBuilder::new();
        p.push(m(4, 15));
        p.push(l(15, 4));
        p.push(q(17, 2, 19, 4));
        p.push(l(20, 5));
        p.push(q(22, 7, 20, 9));
        p.push(l(9, 20));
        p.push(l(3, 21));
        p.push(close_path());
        p.push(m(13, 6));
        p.push(l(18, 11));
        p.push(m(4, 15));
        p.push(l(9, 20));
        outline(p)
    };
    icon.push(poly);
    assert(shapes(icon@) =~~= edit_table());
    icon
}

fn check_icon() -> (icon: Vec<Poly>)
    ensures
        icon_ok(icon@),
        shapes(icon@) == check_table(),
{
    let mut icon: Vec<Poly> = Vec::new();
    let poly = {
        let mut p = PathBuilder::new();
        p.push(m(4, 12));
        p.push(l(9, 17));
        p.push(l(20, 6));
        outline(p)
    };
    icon.push(poly);
    assert(shapes(icon@) =~~= check_table());
    icon
}

fn checkbox_icon() -> (icon: Vec<Poly>)
    ensures
        icon_ok(icon@),
        shapes(icon@) == checkbox_table(),
{
    let mut icon: Vec<Poly> = Vec::new();
    icon.push(frame());
    assert(shapes(icon@) =~~= checkbox_table());
    icon
}

fn checkbox_checked_icon() -> (icon: Vec<Poly>)
    ensures
        icon_ok(icon@),
        shapes(icon@) == checkbox_checked_table(),
{
    let mut icon: Vec<Poly> = Vec::new();
    icon.push(frame());
    icon.push(tick());
    assert(shapes(icon@) =~~= checkbox_checked_table());
    icon
}

fn broadcast_icon() -> (icon: Vec<Poly>)
    ensures
        icon_ok(icon@),
        shapes(icon@) == broadcast_table(),
{
    let mut icon: Vec<Poly> = Vec::new();
    let poly = {
        let mut p = PathBuilder::new();
        p.push(m(5, 4));
        p.push(q(1, 8, 2, 13));
        p.push(q(2, 16, 5, 19));
        p.push(m(19, 4));
        p.push(q(23, 8, 22, 13));
        p.push(q(22, 16, 19, 19));
        p.push(m(8, 7));
        p.push(q(4, 11, 8, 15));
        p.push(m(16, 7));
        p.push(q(20, 11, 16, 15));
        p.push(m(12, 14));
        p.push(l(12, 21));
        p.push(m(8, 21));
        p.push(l(16, 21));
        outline(p)
    };
    icon.push(poly);
    let poly = {
        let mut p = PathBuilder::new();
        p.push(circle(12, 11, 2));
        fill(p)
    };
    icon.push(poly);
    assert(shapes(icon@) =~~= broadcast_table());
    icon
}

fn split_right_icon() -> (icon: Vec<Poly>)
    ensures
        icon_ok(icon@),
        shapes(icon@) == split_right_table(),
{
    let mut icon: Vec<Poly> = Vec::new();
    icon.push(frame());
    let poly = {
        let mut p = PathBuilder::new();
        p.push(m(12, 4));
        p.push(l(12, 20));
        outline(p)
    };
    icon.push(poly);
    assert(shapes(icon@) =~~= split_right_table());
    icon
}

fn split_down_icon() -> (icon: Vec<Poly>)
    ensures
        icon_ok(icon@),
        shapes(icon@) == split_down_table(),
{
    let mut icon: Vec<Poly> = Vec::new();
    icon.push(frame());
    let poly = {
        let mut p = PathBuilder::new();
        p.push(m(4, 12));
        p.push(l(20, 12));
        outline(p)
    };
    icon.push(poly);
    assert(shapes(icon@) =~~= split_down_table());
    icon
}

fn arrow_left_icon() -> (icon: Vec<Poly>)
    ensures
        icon_ok(icon@),
        shapes(icon@) == arrow_left_table(),
{
    let mut icon: Vec<Poly> = Vec::new();
    let poly = {
        let mut p = PathBuilder::new();
        p.push(m(11, 5));
        p.push(l(4, 12));
        p.push(l(11, 19));
        p.push(m(4, 12));
        p.push(l(21, 12));
        outline(p)
    };
    icon.push(poly);
    assert(shapes(icon@) =~~= arrow_left_table());
    icon
}

fn arrow_right_icon() -> (icon: Vec<Poly>)
    ensures
        icon_ok(icon@),
        shapes(icon@) == arrow_right_table(),
{
    let mut icon: Vec<Poly> = Vec::new();
    let poly = {
        let mut p = PathBuilder::new();
        p.push(m(13, 5));
        p.push(l(20, 12));
        p.push(l(13, 19));
        p.push(m(20, 12));
        p.push(l(3, 12));
        outline(p)
    };
    icon.push(poly);
    assert(shapes(icon@) =~~= arrow_right_table());
    icon
}

fn settings_icon() -> (icon: Vec<Poly>)
    ensures
        icon_ok(icon@),
        shapes(icon@) == settings_table(),
{
    let mut icon: Vec<Poly> = Vec::new();
    let poly = {
        let mut p = PathBuilder::new();
        p.push(m(3, 6));
        p.push(l(8, 6));
        p.push(m(12, 6));
        p.push(l(21, 6));
        p.push(circle(10, 6, 2));
        p.push(m(3, 12));
        p.push(l(13, 12));
        p.push(m(17, 12));
        p.push(l(21, 12));
        p.push(circle(15, 12, 2));
        p.push(m(3, 18));
        p.push(l(6, 18));
        p.push(m(10, 18));
        p.push(l(21, 18));
        p.push(circle(8, 18, 2));
        outline(p)
    };
    icon.push(poly);
    assert(shapes(icon@) =~~= settings_table());
    icon
}

fn more_icon() -> (icon: Vec<Poly>)
    ensures
        icon_ok(icon@),
        shapes(icon@) == more_table(),
{
    let mut icon: Vec<Poly> = Vec::new();
    let poly = {
        let mut p = PathBuilder::new();
        p.push(circle(5, 12, 1));
        p.push(circle(12, 12, 1));
        p.push(circle(19, 12, 1));
        fill(p)
    };
    icon.push(poly);
    assert(shapes(icon@) =~~= more_table());
    icon
}

fn link_icon() -> (icon: Vec<Poly>)
    ensures
        icon_ok(icon@),
        shapes(icon@) == link_table(),
{
    let mut icon: Vec<Poly> = Vec::new();
    let poly = {
        let mut p = PathBuilder::new();
        p.push(m(10, 8));
        p.push(l(13, 5));
        p.push(q(17, 1, 21, 5));
        p.push(q(24, 9, 20, 12));
        p.push(l(17, 15));
        p.push(m(14, 16));
        p.push(l(11, 19));
        p.push(q(7, 23, 3, 19));
        p.push(q(0, 15, 4, 12));
        p.push(l(7, 9));
        p.push(m(8, 16));
        p.push(l(16, 8));
        outline(p)
    };
    icon.push(poly);
    assert(shapes(icon@) =~~= link_table());
    icon
}

} // verus!
