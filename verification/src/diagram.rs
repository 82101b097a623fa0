//! Views of nodes and their sockets, as a diagram shows them.

use vstd::prelude::*;
use crate::text::{decimal, hexadecimal, parse_i64, parsed, push_decimal, push_hexadecimal};

verus! {

#[derive(Clone, Copy, Debug, PartialEq, Eq, Structural, Hash)]
pub enum SocketDirection {
    Input,
    Output,
    Bidirectional,
}

impl SocketDirection {
    /// The name of the direction, in camel case.
    pub fn as_str(&self) -> (s: &'static str)
        ensures
            s@ == match self {
                SocketDirection::Input => "input"@,
                SocketDirection::Output => "output"@,
                SocketDirection::Bidirectional => "bidirectional"@,
            },
    {
        match self {
            SocketDirection::Input => "input",
            SocketDirection::Output => "output",
            SocketDirection::Bidirectional => "bidirectional",
        }
    }
}

impl SocketDirection {
    /// The direction with this name, if the name is one of a direction.
    pub fn from_name(name: &str) -> (d: Option<SocketDirection>)
        ensures
            d == if name@ == "input"@ {
                Some(SocketDirection::Input)
            } else if name@ == "output"@ {
                Some(SocketDirection::Output)
            } else if name@ == "bidirectional"@ {
                Some(SocketDirection::Bidirectional)
            } else {
                None
            },
    {
        let name = String::from_str(name);
        if name == String::from_str("input") {
            Some(SocketDirection::Input)
        } else if name == String::from_str("output") {
            Some(SocketDirection::Output)
        } else if name == String::from_str("bidirectional") {
            Some(SocketDirection::Bidirectional)
        } else {
            None
        }
    }
}

#[derive(Clone, Copy, Debug, PartialEq, Eq, Structural, Hash)]
pub enum NodeSide {
    Left,
    Right,
}

impl NodeSide {
    /// The side with this name, if the name is one of a side.
    pub fn from_name(name: &str) -> (s: Option<NodeSide>)
        ensures
            s == if name@ == "left"@ {
                Some(NodeSide::Left)
            } else if name@ == "right"@ {
                Some(NodeSide::Right)
            } else {
                None
            },
    {
        let name = String::from_str(name);
        if name == String::from_str("left") {
            Some(NodeSide::Left)
        } else if name == String::from_str("right") {
            Some(NodeSide::Right)
        } else {
            None
        }
    }

    /// The name of the side, in camel case.
    pub fn as_str(&self) -> (s: &'static str)
        ensures
            s@ == match self {
                NodeSide::Left => "left"@,
                NodeSide::Right => "right"@,
            },
    {
        match self {
            NodeSide::Left => "left",
            NodeSide::Right => "right",
        }
    }
}

/// How many connections a socket takes.
#[derive(Clone, Copy, Debug, PartialEq, Eq, Structural, Hash)]
pub enum SocketArity {
    Many,
    One,
}

/// Which way a socket of a schema variant faces.
#[derive(Clone, Copy, Debug, PartialEq, Eq, Structural, Hash)]
pub enum SocketEdgeKind {
    ConfigurationInput,
    ConfigurationOutput,
}

/// A socket of a schema variant, as far as a diagram shows it.
#[derive(Clone, Debug, PartialEq, Eq)]
pub struct Socket {
    pub id: i64,
    pub name: String,
    pub edge_kind: SocketEdgeKind,
    pub arity: SocketArity,
    pub required: bool,
}

/// What a socket view shows.
pub ghost struct SocketViewModel {
    pub id: Seq<char>,
    pub label: Seq<char>,
    pub ty: Seq<char>,
    pub direction: SocketDirection,
    pub max_connections: Option<usize>,
    pub is_required: Option<bool>,
    pub node_side: NodeSide,
}

#[derive(Clone, Debug, PartialEq, Eq)]
pub struct SocketView {
    pub(crate) id: String,
    pub(crate) label: String,
    pub(crate) ty: String,
    pub(crate) direction: SocketDirection,
    pub(crate) max_connections: Option<usize>,
    pub(crate) is_required: Option<bool>,
    pub(crate) node_side: NodeSide,
}

impl View for SocketView {
    type V = SocketViewModel;

    open(crate) spec fn view(&self) -> SocketViewModel {
        SocketViewModel {
            id: self.id@,
            label: self.label@,
            ty: self.ty@,
            direction: self.direction,
            max_connections: self.max_connections,
            is_required: self.is_required,
            node_side: self.node_side,
        }
    }
}

/// The view of a socket of the node `node_id`: its identifier is that of the
/// node, a hyphen and that of the socket, both in decimal; label and type are
/// the name of the socket; an output socket stands on the right as an output,
/// any other on the left as an input; a socket for one connection takes one,
/// any other has no limit.
pub open spec fn socket_view_of(node_id: i64, socket: Socket) -> SocketViewModel {
    SocketViewModel {
        id: decimal(node_id as int) + seq!['-'] + decimal(socket.id as int),
        label: socket.name@,
        ty: socket.name@,
        direction: if socket.edge_kind == SocketEdgeKind::ConfigurationOutput {
            SocketDirection::Output
        } else {
            SocketDirection::Input
        },
        max_connections: match socket.arity {
            SocketArity::Many => None,
            SocketArity::One => Some(1usize),
        },
        is_required: Some(socket.required),
        node_side: if socket.edge_kind == SocketEdgeKind::ConfigurationOutput {
            NodeSide::Right
        } else {
            NodeSide::Left
        },
    }
}

/// The views of the sockets of the node `node_id`, in their order, without
/// the sockets named `includes`.
pub open spec fn socket_views_of(node_id: i64, sockets: Seq<Socket>) -> Seq<SocketViewModel>
    decreases sockets.len(),
{
    if sockets.len() == 0 {
        Seq::<SocketViewModel>::empty()
    } else if sockets.last().name@ == "includes"@ {
        socket_views_of(node_id, sockets.drop_last())
    } else {
        socket_views_of(node_id, sockets.drop_last()).push(socket_view_of(node_id, sockets.last()))
    }
}

/// What a list of socket views shows.
pub open spec fn shown(views: Seq<SocketView>) -> Seq<SocketViewModel> {
    Seq::new(views.len(), |i: int| views[i]@)
}

impl SocketView {
    /// The view of one socket of the node `node_id`.
    pub fn of(node_id: i64, socket: &Socket) -> (v: SocketView)
        ensures
            v@ == socket_view_of(node_id, *socket),
    {
        let mut id = String::new();
        push_decimal(&mut id, node_id);
        id.append("-");
        push_decimal(&mut id, socket.id);
        proof {
            reveal_strlit("-");
            assert(id@ =~= decimal(node_id as int) + seq!['-'] + decimal(socket.id as int));
        }
        let output = match socket.edge_kind {
            SocketEdgeKind::ConfigurationOutput => true,
            SocketEdgeKind::ConfigurationInput => false,
        };
        SocketView {
            id,
            label: socket.name.clone(),
            ty: socket.name.clone(),
            direction: if output {
                SocketDirection::Output
            } else {
                SocketDirection::Input
            },
            max_connections: match socket.arity {
                SocketArity::Many => None,
                SocketArity::One => Some(1),
            },
            is_required: Some(socket.required),
            node_side: if output {
                NodeSide::Right
            } else {
                NodeSide::Left
            },
        }
    }

    /// The views of the sockets of the node `node_id`, in their order,
    /// without the sockets named `includes`.
    pub fn list(node_id: i64, sockets: &Vec<Socket>) -> (views: Vec<SocketView>)
        ensures
            shown(views@) == socket_views_of(node_id, sockets@),
    {
        let skip = String::from_str("includes");
        let mut views: Vec<SocketView> = Vec::new();
        let mut i: usize = 0;
        proof {
            assert(sockets@.take(0) =~= Seq::<Socket>::empty());
            assert(shown(views@) =~= socket_views_of(node_id, sockets@.take(0)));
        }
        while i < sockets.len()
            invariant
                i <= sockets@.len(),
                skip@ == "includes"@,
                shown(views@) == socket_views_of(node_id, sockets@.take(i as int)),
            decreases sockets@.len() - i,
        {
            let ghost before = views@;
            proof {
                assert(sockets@.take(i + 1).drop_last() =~= sockets@.take(i as int));
                assert(sockets@.take(i + 1).last() == sockets@[i as int]);
            }
            if !(sockets[i].name == skip) {
                let v = SocketView::of(node_id, &sockets[i]);
                views.push(v);
                proof {
                    assert(shown(views@) =~= shown(before).push(v@));
                }
            }
            i += 1;
        }
        proof {
            assert(sockets@.take(sockets@.len() as int) =~= sockets@);
        }
        views
    }

    /// A view with exactly these parts.
    pub fn from_parts(
        id: String,
        label: String,
        ty: String,
        direction: SocketDirection,
        max_connections: Option<usize>,
        is_required: Option<bool>,
        node_side: NodeSide,
    ) -> (v: SocketView)
        ensures
            v@ == (SocketViewModel {
                id: id@,
                label: label@,
                ty: ty@,
                direction,
                max_connections,
                is_required,
                node_side,
            }),
    {
        SocketView { id, label, ty, direction, max_connections, is_required, node_side }
    }

    pub fn id(&self) -> (s: &str)
        ensures
            s@ == self@.id,
    {
        self.id.as_str()
    }

    pub fn label(&self) -> (s: &str)
        ensures
            s@ == self@.label,
    {
        self.label.as_str()
    }

    pub fn ty(&self) -> (s: &str)
        ensures
            s@ == self@.ty,
    {
        self.ty.as_str()
    }

    pub fn direction(&self) -> (d: SocketDirection)
        ensures
            d == self@.direction,
    {
        self.direction
    }

    pub fn max_connections(&self) -> (m: Option<usize>)
        ensures
            m == self@.max_connections,
    {
        self.max_connections
    }

    pub fn is_required(&self) -> (r: Option<bool>)
        ensures
            r == self@.is_required,
    {
        self.is_required
    }

    pub fn node_side(&self) -> (s: NodeSide)
        ensures
            s == self@.node_side,
    {
        self.node_side
    }
}

#[derive(Clone, Debug, PartialEq, Eq)]
pub struct GridPoint {
    pub(crate) x: isize,
    pub(crate) y: isize,
}

impl GridPoint {
    pub open(crate) spec fn spec_x(&self) -> isize {
        self.x
    }

    pub open(crate) spec fn spec_y(&self) -> isize {
        self.y
    }

    pub fn new(x: isize, y: isize) -> (p: GridPoint)
        ensures
            p.spec_x() == x,
            p.spec_y() == y,
    {
        GridPoint { x, y }
    }

    pub fn x(&self) -> (r: isize)
        ensures
            r == self.spec_x(),
    {
        self.x
    }

    pub fn y(&self) -> (r: isize)
        ensures
            r == self.spec_y(),
    {
        self.y
    }
}

/// Why a node view could not be made.
#[derive(Clone, Copy, Debug, PartialEq, Eq, Structural)]
pub enum DiagramError {
    ComponentNotFound,
    SchemaNotFound,
    /// A coordinate of the position is not a whole number that fits.
    ParseInt,
}

/// The component that was looked up for a node, or that the node has none.
pub fn component_found<T>(found: Option<T>) -> (r: Result<T, DiagramError>)
    ensures
        r == match found {
            Some(component) => Ok::<T, DiagramError>(component),
            None => Err(DiagramError::ComponentNotFound),
        },
{
    match found {
        Some(component) => Ok(component),
        None => Err(DiagramError::ComponentNotFound),
    }
}

/// The schema that was looked up for a schema variant, or that there is none.
pub fn schema_found<T>(found: Option<T>) -> (r: Result<T, DiagramError>)
    ensures
        r == match found {
            Some(schema) => Ok::<T, DiagramError>(schema),
            None => Err(DiagramError::SchemaNotFound),
        },
{
    match found {
        Some(schema) => Ok(schema),
        None => Err(DiagramError::SchemaNotFound),
    }
}

/// The coordinate that a text stands for, if it stands for one that fits.
pub open spec fn coordinate(text: Seq<char>) -> Option<isize> {
    match parsed(text) {
        Some(n) => if isize::MIN <= n <= isize::MAX {
            Some(n as isize)
        } else {
            None
        },
        None => None,
    }
}

/// The colour `c` as the diagram writes it: a hash sign and the number in
/// hexadecimal, a negative number as the 64 bits that stand for it.
pub open spec fn colour_text(c: i64) -> Seq<char> {
    seq!['#'] + hexadecimal(
        if c < 0 {
            (c + 0x1_0000_0000_0000_0000) as nat
        } else {
            c as nat
        },
    )
}

fn parse_coordinate(text: &str) -> (r: Option<isize>)
    ensures
        r == coordinate(text@),
{
    match parse_i64(text) {
        Some(n) => {
            if n < isize::MIN as i64 || n > isize::MAX as i64 {
                None
            } else {
                Some(n as isize)
            }
        },
        None => None,
    }
}

fn colour_string(c: i64) -> (s: String)
    ensures
        s@ == colour_text(c),
{
    let bits: u64 = if c < 0 {
        ((c + i64::MAX) + 1) as u64 + 9223372036854775808u64
    } else {
        c as u64
    };
    let mut s = String::from_str("#");
    proof {
        reveal_strlit("#");
    }
    push_hexadecimal(&mut s, bits);
    proof {
        assert(s@ =~= colour_text(c));
    }
    s
}

#[derive(Clone, Debug, PartialEq, Eq)]
pub struct DiagramNodeView {
    pub(crate) id: String,
    pub(crate) ty: Option<String>,
    pub(crate) title: String,
    pub(crate) subtitle: Option<String>,
    pub(crate) content: Option<String>,
    pub(crate) sockets: Option<Vec<SocketView>>,
    pub(crate) position: GridPoint,
    pub(crate) color: Option<String>,
}

impl DiagramNodeView {
    pub open(crate) spec fn spec_id(&self) -> Seq<char> {
        self.id@
    }

    pub open(crate) spec fn spec_position(&self) -> GridPoint {
        self.position
    }

    pub open(crate) spec fn spec_title(&self) -> Seq<char> {
        self.title@
    }

    pub open(crate) spec fn spec_subtitle(&self) -> Option<String> {
        self.subtitle
    }

    pub open(crate) spec fn spec_sockets(&self) -> Option<Vec<SocketView>> {
        self.sockets
    }

    pub open(crate) spec fn spec_color(&self) -> Option<String> {
        self.color
    }

    pub open(crate) spec fn spec_ty(&self) -> Option<String> {
        self.ty
    }

    pub open(crate) spec fn spec_content(&self) -> Option<String> {
        self.content
    }

    /// The view of the node `node_id`: its identifier in decimal, the name
    /// of its schema as title, the name of its component as subtitle, the
    /// views of its sockets, its position, and its colour. It fails where a
    /// coordinate of the position is not a whole number that fits.
    pub fn new(
        node_id: i64,
        schema_name: String,
        component_name: Option<String>,
        sockets: &Vec<Socket>,
        x: &str,
        y: &str,
        color: Option<i64>,
    ) -> (r: Result<DiagramNodeView, DiagramError>)
        ensures
            r is Ok <==> coordinate(x@) is Some && coordinate(y@) is Some,
            r matches Err(e) ==> e == DiagramError::ParseInt,
            r matches Ok(v) ==> {
                &&& v.spec_id() == decimal(node_id as int)
                &&& v.spec_ty() is None
                &&& v.spec_title() == schema_name@
                &&& v.spec_subtitle() == component_name
                &&& v.spec_content() is None
                &&& v.spec_sockets() matches Some(views) && shown(views@) == socket_views_of(
                    node_id,
                    sockets@,
                )
                &&& v.spec_position().spec_x() == coordinate(x@)->0
                &&& v.spec_position().spec_y() == coordinate(y@)->0
                &&& match color {
                    Some(c) => v.spec_color() matches Some(text) && text@ == colour_text(c),
                    None => v.spec_color() is None,
                }
            },
    {
        let px = match parse_coordinate(x) {
            Some(n) => n,
            None => {
                return Err(DiagramError::ParseInt);
            },
        };
        let py = match parse_coordinate(y) {
            Some(n) => n,
            None => {
                return Err(DiagramError::ParseInt);
            },
        };
        let mut id = String::new();
        push_decimal(&mut id, node_id);
        proof {
            assert(id@ =~= decimal(node_id as int));
        }
        let color = match color {
            Some(c) => Some(colour_string(c)),
            None => None,
        };
        Ok(
            DiagramNodeView {
                id,
                ty: None,
                title: schema_name,
                subtitle: component_name,
                content: None,
                sockets: Some(SocketView::list(node_id, sockets)),
                position: GridPoint { x: px, y: py },
                color,
            },
        )
    }

    /// A view with exactly these parts.
    pub fn from_parts(
        id: String,
        ty: Option<String>,
        title: String,
        subtitle: Option<String>,
        content: Option<String>,
        sockets: Option<Vec<SocketView>>,
        position: GridPoint,
        color: Option<String>,
    ) -> (v: DiagramNodeView)
        ensures
            v.spec_id() == id@,
            v.spec_ty() == ty,
            v.spec_title() == title@,
            v.spec_subtitle() == subtitle,
            v.spec_content() == content,
            v.spec_sockets() == sockets,
            v.spec_position() == position,
            v.spec_color() == color,
    {
        DiagramNodeView { id, ty, title, subtitle, content, sockets, position, color }
    }

    pub fn id(&self) -> (s: &str)
        ensures
            s@ == self.spec_id(),
    {
        self.id.as_str()
    }

    pub fn ty(&self) -> (s: &Option<String>)
        ensures
            *s == self.spec_ty(),
    {
        &self.ty
    }

    pub fn content(&self) -> (s: &Option<String>)
        ensures
            *s == self.spec_content(),
    {
        &self.content
    }

    pub fn position(&self) -> (p: &GridPoint)
        ensures
            *p == self.spec_position(),
    {
        &self.position
    }

    pub fn title(&self) -> (s: &str)
        ensures
            s@ == self.spec_title(),
    {
        self.title.as_str()
    }

    pub fn subtitle(&self) -> (s: &Option<String>)
        ensures
            *s == self.spec_subtitle(),
    {
        &self.subtitle
    }

    pub fn sockets(&self) -> (s: &Option<Vec<SocketView>>)
        ensures
            *s == self.spec_sockets(),
    {
        &self.sockets
    }

    pub fn color(&self) -> (s: &Option<String>)
        ensures
            *s == self.spec_color(),
    {
        &self.color
    }
}

} // verus!
