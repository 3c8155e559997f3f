//! DOT shapes, edge styles, colours and subgraph headers.
use vstd::prelude::*;

use crate::detect::chars_eq_str as eq;
use crate::dot_attrs::{
    clean_value_window, extract_dot_attribute_raw, same_ci, spec_attr, trim_quotes,
    trim_quotes_window,
};
use crate::identifier::{normalize_dot_identifier, spec_normalize_identifier};
use crate::ir::{ArrowType, NodeShape, trail_run, trim_char, trim_char_window};
use crate::text::{
    ascii_lower_char, ascii_lower_window, chars_of, dec_digits, idx_of, index_of_char, push_decimal,
    push_str, push_window, starts_with, string_from_chars, string_of_window, trim, trim_window,
    window_vec,
};

verus! {

// ---------------------------------------------------------------------------------------------
// Shapes.
/// The node shape a (lowercased) DOT shape name maps to.
pub open spec fn shape_of_name(n: Seq<char>) -> Option<NodeShape> {
    if n == "box"@ || n == "rect"@ || n == "rectangle"@ || n == "square"@ || n == "folder"@ || n
        == "box3d"@ || n == "house"@ || n == "invhouse"@ {
        Some(NodeShape::Rect)
    } else if n == "roundedbox"@ || n == "rounded"@ {
        Some(NodeShape::Rounded)
    } else if n == "diamond"@ {
        Some(NodeShape::Diamond)
    } else if n == "circle"@ || n == "point"@ || n == "doublecircle"@ {
        Some(NodeShape::Circle)
    } else if n == "hexagon"@ {
        Some(NodeShape::Hexagon)
    } else if n == "trapezium"@ {
        Some(NodeShape::Trapezoid)
    } else if n == "invtrapezium"@ {
        Some(NodeShape::InvTrapezoid)
    } else if n == "parallelogram"@ {
        Some(NodeShape::Parallelogram)
    } else if n == "triangle"@ || n == "invtriangle"@ {
        Some(NodeShape::Triangle)
    } else if n == "pentagon"@ {
        Some(NodeShape::Pentagon)
    } else if n == "star"@ {
        Some(NodeShape::Star)
    } else if n == "cylinder"@ {
        Some(NodeShape::Cylinder)
    } else if n == "note"@ || n == "tab"@ {
        Some(NodeShape::Note)
    } else if n == "cds"@ || n == "component"@ {
        Some(NodeShape::Subroutine)
    } else {
        None
    }
}

/// The DOT shape names that draw a node as `sh`, by the shape each name depicts: `box` and its
/// boxy kin are rectangles, `cylinder` a cylinder (a database), `diamond` a diamond, and so on.
pub open spec fn dot_names_of(sh: NodeShape) -> Set<Seq<char>> {
    match sh {
        NodeShape::Rect => set!["box"@, "rect"@, "rectangle"@, "square"@, "folder"@, "box3d"@, "house"@, "invhouse"@],
        NodeShape::Rounded => set!["roundedbox"@, "rounded"@],
        NodeShape::Diamond => set!["diamond"@],
        NodeShape::Circle => set!["circle"@, "point"@, "doublecircle"@],
        NodeShape::Hexagon => set!["hexagon"@],
        NodeShape::Trapezoid => set!["trapezium"@],
        NodeShape::InvTrapezoid => set!["invtrapezium"@],
        NodeShape::Parallelogram => set!["parallelogram"@],
        NodeShape::Triangle => set!["triangle"@, "invtriangle"@],
        NodeShape::Pentagon => set!["pentagon"@],
        NodeShape::Star => set!["star"@],
        NodeShape::Cylinder => set!["cylinder"@],
        NodeShape::Note => set!["note"@, "tab"@],
        NodeShape::Subroutine => set!["cds"@, "component"@],
        NodeShape::DoubleCircle => Set::empty(),
    }
}

proof fn lemma_shape_name_0()
    ensures
        shape_of_name("box"@) == Some(NodeShape::Rect),
{
    reveal_strlit("box");
}

proof fn lemma_shape_name_1()
    ensures
        shape_of_name("rect"@) == Some(NodeShape::Rect),
{
    reveal_strlit("rect");
    reveal_strlit("box");
    assert("rect"@.len() != "box"@.len());
}

proof fn lemma_shape_name_2()
    ensures
        shape_of_name("rectangle"@) == Some(NodeShape::Rect),
{
    reveal_strlit("rectangle");
    reveal_strlit("box");
    assert("rectangle"@.len() != "box"@.len());
    reveal_strlit("rect");
    assert("rectangle"@.len() != "rect"@.len());
}

proof fn lemma_shape_name_3()
    ensures
        shape_of_name("square"@) == Some(NodeShape::Rect),
{
    reveal_strlit("square");
    reveal_strlit("box");
    assert("square"@.len() != "box"@.len());
    reveal_strlit("rect");
    assert("square"@.len() != "rect"@.len());
    reveal_strlit("rectangle");
    assert("square"@.len() != "rectangle"@.len());
}

proof fn lemma_shape_name_4()
    ensures
        shape_of_name("folder"@) == Some(NodeShape::Rect),
{
    reveal_strlit("folder");
    reveal_strlit("box");
    assert("folder"@.len() != "box"@.len());
    reveal_strlit("rect");
    assert("folder"@.len() != "rect"@.len());
    reveal_strlit("rectangle");
    assert("folder"@.len() != "rectangle"@.len());
    reveal_strlit("square");
    assert("folder"@[0] != "square"@[0]);
}

proof fn lemma_shape_name_5()
    ensures
        shape_of_name("box3d"@) == Some(NodeShape::Rect),
{
    reveal_strlit("box3d");
    reveal_strlit("box");
    assert("box3d"@.len() != "box"@.len());
    reveal_strlit("rect");
    assert("box3d"@.len() != "rect"@.len());
    reveal_strlit("rectangle");
    assert("box3d"@.len() != "rectangle"@.len());
    reveal_strlit("square");
    assert("box3d"@.len() != "square"@.len());
    reveal_strlit("folder");
    assert("box3d"@.len() != "folder"@.len());
}

proof fn lemma_shape_name_6()
    ensures
        shape_of_name("house"@) == Some(NodeShape::Rect),
{
    reveal_strlit("house");
    reveal_strlit("box");
    assert("house"@.len() != "box"@.len());
    reveal_strlit("rect");
    assert("house"@.len() != "rect"@.len());
    reveal_strlit("rectangle");
    assert("house"@.len() != "rectangle"@.len());
    reveal_strlit("square");
    assert("house"@.len() != "square"@.len());
    reveal_strlit("folder");
    assert("house"@.len() != "folder"@.len());
    reveal_strlit("box3d");
    assert("house"@[0] != "box3d"@[0]);
}

proof fn lemma_shape_name_7()
    ensures
        shape_of_name("invhouse"@) == Some(NodeShape::Rect),
{
    reveal_strlit("invhouse");
    reveal_strlit("box");
    assert("invhouse"@.len() != "box"@.len());
    reveal_strlit("rect");
    assert("invhouse"@.len() != "rect"@.len());
    reveal_strlit("rectangle");
    assert("invhouse"@.len() != "rectangle"@.len());
    reveal_strlit("square");
    assert("invhouse"@.len() != "square"@.len());
    reveal_strlit("folder");
    assert("invhouse"@.len() != "folder"@.len());
    reveal_strlit("box3d");
    assert("invhouse"@.len() != "box3d"@.len());
    reveal_strlit("house");
    assert("invhouse"@.len() != "house"@.len());
}

proof fn lemma_shape_name_8()
    ensures
        shape_of_name("roundedbox"@) == Some(NodeShape::Rounded),
{
    reveal_strlit("roundedbox");
    reveal_strlit("box");
    assert("roundedbox"@.len() != "box"@.len());
    reveal_strlit("rect");
    assert("roundedbox"@.len() != "rect"@.len());
    reveal_strlit("rectangle");
    assert("roundedbox"@.len() != "rectangle"@.len());
    reveal_strlit("square");
    assert("roundedbox"@.len() != "square"@.len());
    reveal_strlit("folder");
    assert("roundedbox"@.len() != "folder"@.len());
    reveal_strlit("box3d");
    assert("roundedbox"@.len() != "box3d"@.len());
    reveal_strlit("house");
    assert("roundedbox"@.len() != "house"@.len());
    reveal_strlit("invhouse");
    assert("roundedbox"@.len() != "invhouse"@.len());
}

proof fn lemma_shape_name_9()
    ensures
        shape_of_name("rounded"@) == Some(NodeShape::Rounded),
{
    reveal_strlit("rounded");
    reveal_strlit("box");
    assert("rounded"@.len() != "box"@.len());
    reveal_strlit("rect");
    assert("rounded"@.len() != "rect"@.len());
    reveal_strlit("rectangle");
    assert("rounded"@.len() != "rectangle"@.len());
    reveal_strlit("square");
    assert("rounded"@.len() != "square"@.len());
    reveal_strlit("folder");
    assert("rounded"@.len() != "folder"@.len());
    reveal_strlit("box3d");
    assert("rounded"@.len() != "box3d"@.len());
    reveal_strlit("house");
    assert("rounded"@.len() != "house"@.len());
    reveal_strlit("invhouse");
    assert("rounded"@.len() != "invhouse"@.len());
    reveal_strlit("roundedbox");
    assert("rounded"@.len() != "roundedbox"@.len());
}

proof fn lemma_shape_name_10()
    ensures
        shape_of_name("diamond"@) == Some(NodeShape::Diamond),
{
    reveal_strlit("diamond");
    reveal_strlit("box");
    assert("diamond"@.len() != "box"@.len());
    reveal_strlit("rect");
    assert("diamond"@.len() != "rect"@.len());
    reveal_strlit("rectangle");
    assert("diamond"@.len() != "rectangle"@.len());
    reveal_strlit("square");
    assert("diamond"@.len() != "square"@.len());
    reveal_strlit("folder");
    assert("diamond"@.len() != "folder"@.len());
    reveal_strlit("box3d");
    assert("diamond"@.len() != "box3d"@.len());
    reveal_strlit("house");
    assert("diamond"@.len() != "house"@.len());
    reveal_strlit("invhouse");
    assert("diamond"@.len() != "invhouse"@.len());
    reveal_strlit("roundedbox");
    assert("diamond"@.len() != "roundedbox"@.len());
    reveal_strlit("rounded");
    assert("diamond"@[0] != "rounded"@[0]);
}

proof fn lemma_shape_name_11()
    ensures
        shape_of_name("circle"@) == Some(NodeShape::Circle),
{
    reveal_strlit("circle");
    reveal_strlit("box");
    assert("circle"@.len() != "box"@.len());
    reveal_strlit("rect");
    assert("circle"@.len() != "rect"@.len());
    reveal_strlit("rectangle");
    assert("circle"@.len() != "rectangle"@.len());
    reveal_strlit("square");
    assert("circle"@[0] != "square"@[0]);
    reveal_strlit("folder");
    assert("circle"@[0] != "folder"@[0]);
    reveal_strlit("box3d");
    assert("circle"@.len() != "box3d"@.len());
    reveal_strlit("house");
    assert("circle"@.len() != "house"@.len());
    reveal_strlit("invhouse");
    assert("circle"@.len() != "invhouse"@.len());
    reveal_strlit("roundedbox");
    assert("circle"@.len() != "roundedbox"@.len());
    reveal_strlit("rounded");
    assert("circle"@.len() != "rounded"@.len());
    reveal_strlit("diamond");
    assert("circle"@.len() != "diamond"@.len());
}

proof fn lemma_shape_name_12()
    ensures
        shape_of_name("point"@) == Some(NodeShape::Circle),
{
    reveal_strlit("point");
    reveal_strlit("box");
    assert("point"@.len() != "box"@.len());
    reveal_strlit("rect");
    assert("point"@.len() != "rect"@.len());
    reveal_strlit("rectangle");
    assert("point"@.len() != "rectangle"@.len());
    reveal_strlit("square");
    assert("point"@.len() != "square"@.len());
    reveal_strlit("folder");
    assert("point"@.len() != "folder"@.len());
    reveal_strlit("box3d");
    assert("point"@[0] != "box3d"@[0]);
    reveal_strlit("house");
    assert("point"@[0] != "house"@[0]);
    reveal_strlit("invhouse");
    assert("point"@.len() != "invhouse"@.len());
    reveal_strlit("roundedbox");
    assert("point"@.len() != "roundedbox"@.len());
    reveal_strlit("rounded");
    assert("point"@.len() != "rounded"@.len());
    reveal_strlit("diamond");
    assert("point"@.len() != "diamond"@.len());
    reveal_strlit("circle");
    assert("point"@.len() != "circle"@.len());
}

proof fn lemma_shape_name_13()
    ensures
        shape_of_name("doublecircle"@) == Some(NodeShape::Circle),
{
    reveal_strlit("doublecircle");
    reveal_strlit("box");
    assert("doublecircle"@.len() != "box"@.len());
    reveal_strlit("rect");
    assert("doublecircle"@.len() != "rect"@.len());
    reveal_strlit("rectangle");
    assert("doublecircle"@.len() != "rectangle"@.len());
    reveal_strlit("square");
    assert("doublecircle"@.len() != "square"@.len());
    reveal_strlit("folder");
    assert("doublecircle"@.len() != "folder"@.len());
    reveal_strlit("box3d");
    assert("doublecircle"@.len() != "box3d"@.len());
    reveal_strlit("house");
    assert("doublecircle"@.len() != "house"@.len());
    reveal_strlit("invhouse");
    assert("doublecircle"@.len() != "invhouse"@.len());
    reveal_strlit("roundedbox");
    assert("doublecircle"@.len() != "roundedbox"@.len());
    reveal_strlit("rounded");
    assert("doublecircle"@.len() != "rounded"@.len());
    reveal_strlit("diamond");
    assert("doublecircle"@.len() != "diamond"@.len());
    reveal_strlit("circle");
    assert("doublecircle"@.len() != "circle"@.len());
    reveal_strlit("point");
    assert("doublecircle"@.len() != "point"@.len());
}

proof fn lemma_shape_name_14()
    ensures
        shape_of_name("hexagon"@) == Some(NodeShape::Hexagon),
{
    reveal_strlit("hexagon");
    reveal_strlit("box");
    assert("hexagon"@.len() != "box"@.len());
    reveal_strlit("rect");
    assert("hexagon"@.len() != "rect"@.len());
    reveal_strlit("rectangle");
    assert("hexagon"@.len() != "rectangle"@.len());
    reveal_strlit("square");
    assert("hexagon"@.len() != "square"@.len());
    reveal_strlit("folder");
    assert("hexagon"@.len() != "folder"@.len());
    reveal_strlit("box3d");
    assert("hexagon"@.len() != "box3d"@.len());
    reveal_strlit("house");
    assert("hexagon"@.len() != "house"@.len());
    reveal_strlit("invhouse");
    assert("hexagon"@.len() != "invhouse"@.len());
    reveal_strlit("roundedbox");
    assert("hexagon"@.len() != "roundedbox"@.len());
    reveal_strlit("rounded");
    assert("hexagon"@[0] != "rounded"@[0]);
    reveal_strlit("diamond");
    assert("hexagon"@[0] != "diamond"@[0]);
    reveal_strlit("circle");
    assert("hexagon"@.len() != "circle"@.len());
    reveal_strlit("point");
    assert("hexagon"@.len() != "point"@.len());
    reveal_strlit("doublecircle");
    assert("hexagon"@.len() != "doublecircle"@.len());
}

proof fn lemma_shape_name_15()
    ensures
        shape_of_name("trapezium"@) == Some(NodeShape::Trapezoid),
{
    reveal_strlit("trapezium");
    reveal_strlit("box");
    assert("trapezium"@.len() != "box"@.len());
    reveal_strlit("rect");
    assert("trapezium"@.len() != "rect"@.len());
    reveal_strlit("rectangle");
    assert("trapezium"@[0] != "rectangle"@[0]);
    reveal_strlit("square");
    assert("trapezium"@.len() != "square"@.len());
    reveal_strlit("folder");
    assert("trapezium"@.len() != "folder"@.len());
    reveal_strlit("box3d");
    assert("trapezium"@.len() != "box3d"@.len());
    reveal_strlit("house");
    assert("trapezium"@.len() != "house"@.len());
    reveal_strlit("invhouse");
    assert("trapezium"@.len() != "invhouse"@.len());
    reveal_strlit("roundedbox");
    assert("trapezium"@.len() != "roundedbox"@.len());
    reveal_strlit("rounded");
    assert("trapezium"@.len() != "rounded"@.len());
    reveal_strlit("diamond");
    assert("trapezium"@.len() != "diamond"@.len());
    reveal_strlit("circle");
    assert("trapezium"@.len() != "circle"@.len());
    reveal_strlit("point");
    assert("trapezium"@.len() != "point"@.len());
    reveal_strlit("doublecircle");
    assert("trapezium"@.len() != "doublecircle"@.len());
    reveal_strlit("hexagon");
    assert("trapezium"@.len() != "hexagon"@.len());
}

proof fn lemma_shape_name_16()
    ensures
        shape_of_name("invtrapezium"@) == Some(NodeShape::InvTrapezoid),
{
    reveal_strlit("invtrapezium");
    reveal_strlit("box");
    assert("invtrapezium"@.len() != "box"@.len());
    reveal_strlit("rect");
    assert("invtrapezium"@.len() != "rect"@.len());
    reveal_strlit("rectangle");
    assert("invtrapezium"@.len() != "rectangle"@.len());
    reveal_strlit("square");
    assert("invtrapezium"@.len() != "square"@.len());
    reveal_strlit("folder");
    assert("invtrapezium"@.len() != "folder"@.len());
    reveal_strlit("box3d");
    assert("invtrapezium"@.len() != "box3d"@.len());
    reveal_strlit("house");
    assert("invtrapezium"@.len() != "house"@.len());
    reveal_strlit("invhouse");
    assert("invtrapezium"@.len() != "invhouse"@.len());
    reveal_strlit("roundedbox");
    assert("invtrapezium"@.len() != "roundedbox"@.len());
    reveal_strlit("rounded");
    assert("invtrapezium"@.len() != "rounded"@.len());
    reveal_strlit("diamond");
    assert("invtrapezium"@.len() != "diamond"@.len());
    reveal_strlit("circle");
    assert("invtrapezium"@.len() != "circle"@.len());
    reveal_strlit("point");
    assert("invtrapezium"@.len() != "point"@.len());
    reveal_strlit("doublecircle");
    assert("invtrapezium"@[0] != "doublecircle"@[0]);
    reveal_strlit("hexagon");
    assert("invtrapezium"@.len() != "hexagon"@.len());
    reveal_strlit("trapezium");
    assert("invtrapezium"@.len() != "trapezium"@.len());
}

proof fn lemma_shape_name_17()
    ensures
        shape_of_name("parallelogram"@) == Some(NodeShape::Parallelogram),
{
    reveal_strlit("parallelogram");
    reveal_strlit("box");
    assert("parallelogram"@.len() != "box"@.len());
    reveal_strlit("rect");
    assert("parallelogram"@.len() != "rect"@.len());
    reveal_strlit("rectangle");
    assert("parallelogram"@.len() != "rectangle"@.len());
    reveal_strlit("square");
    assert("parallelogram"@.len() != "square"@.len());
    reveal_strlit("folder");
    assert("parallelogram"@.len() != "folder"@.len());
    reveal_strlit("box3d");
    assert("parallelogram"@.len() != "box3d"@.len());
    reveal_strlit("house");
    assert("parallelogram"@.len() != "house"@.len());
    reveal_strlit("invhouse");
    assert("parallelogram"@.len() != "invhouse"@.len());
    reveal_strlit("roundedbox");
    assert("parallelogram"@.len() != "roundedbox"@.len());
    reveal_strlit("rounded");
    assert("parallelogram"@.len() != "rounded"@.len());
    reveal_strlit("diamond");
    assert("parallelogram"@.len() != "diamond"@.len());
    reveal_strlit("circle");
    assert("parallelogram"@.len() != "circle"@.len());
    reveal_strlit("point");
    assert("parallelogram"@.len() != "point"@.len());
    reveal_strlit("doublecircle");
    assert("parallelogram"@.len() != "doublecircle"@.len());
    reveal_strlit("hexagon");
    assert("parallelogram"@.len() != "hexagon"@.len());
    reveal_strlit("trapezium");
    assert("parallelogram"@.len() != "trapezium"@.len());
    reveal_strlit("invtrapezium");
    assert("parallelogram"@.len() != "invtrapezium"@.len());
}

proof fn lemma_shape_name_18()
    ensures
        shape_of_name("triangle"@) == Some(NodeShape::Triangle),
{
    reveal_strlit("triangle");
    reveal_strlit("box");
    assert("triangle"@.len() != "box"@.len());
    reveal_strlit("rect");
    assert("triangle"@.len() != "rect"@.len());
    reveal_strlit("rectangle");
    assert("triangle"@.len() != "rectangle"@.len());
    reveal_strlit("square");
    assert("triangle"@.len() != "square"@.len());
    reveal_strlit("folder");
    assert("triangle"@.len() != "folder"@.len());
    reveal_strlit("box3d");
    assert("triangle"@.len() != "box3d"@.len());
    reveal_strlit("house");
    assert("triangle"@.len() != "house"@.len());
    reveal_strlit("invhouse");
    assert("triangle"@[0] != "invhouse"@[0]);
    reveal_strlit("roundedbox");
    assert("triangle"@.len() != "roundedbox"@.len());
    reveal_strlit("rounded");
    assert("triangle"@.len() != "rounded"@.len());
    reveal_strlit("diamond");
    assert("triangle"@.len() != "diamond"@.len());
    reveal_strlit("circle");
    assert("triangle"@.len() != "circle"@.len());
    reveal_strlit("point");
    assert("triangle"@.len() != "point"@.len());
    reveal_strlit("doublecircle");
    assert("triangle"@.len() != "doublecircle"@.len());
    reveal_strlit("hexagon");
    assert("triangle"@.len() != "hexagon"@.len());
    reveal_strlit("trapezium");
    assert("triangle"@.len() != "trapezium"@.len());
    reveal_strlit("invtrapezium");
    assert("triangle"@.len() != "invtrapezium"@.len());
    reveal_strlit("parallelogram");
    assert("triangle"@.len() != "parallelogram"@.len());
}

proof fn lemma_shape_name_19()
    ensures
        shape_of_name("invtriangle"@) == Some(NodeShape::Triangle),
{
    reveal_strlit("invtriangle");
    reveal_strlit("box");
    assert("invtriangle"@.len() != "box"@.len());
    reveal_strlit("rect");
    assert("invtriangle"@.len() != "rect"@.len());
    reveal_strlit("rectangle");
    assert("invtriangle"@.len() != "rectangle"@.len());
    reveal_strlit("square");
    assert("invtriangle"@.len() != "square"@.len());
    reveal_strlit("folder");
    assert("invtriangle"@.len() != "folder"@.len());
    reveal_strlit("box3d");
    assert("invtriangle"@.len() != "box3d"@.len());
    reveal_strlit("house");
    assert("invtriangle"@.len() != "house"@.len());
    reveal_strlit("invhouse");
    assert("invtriangle"@.len() != "invhouse"@.len());
    reveal_strlit("roundedbox");
    assert("invtriangle"@.len() != "roundedbox"@.len());
    reveal_strlit("rounded");
    assert("invtriangle"@.len() != "rounded"@.len());
    reveal_strlit("diamond");
    assert("invtriangle"@.len() != "diamond"@.len());
    reveal_strlit("circle");
    assert("invtriangle"@.len() != "circle"@.len());
    reveal_strlit("point");
    assert("invtriangle"@.len() != "point"@.len());
    reveal_strlit("doublecircle");
    assert("invtriangle"@.len() != "doublecircle"@.len());
    reveal_strlit("hexagon");
    assert("invtriangle"@.len() != "hexagon"@.len());
    reveal_strlit("trapezium");
    assert("invtriangle"@.len() != "trapezium"@.len());
    reveal_strlit("invtrapezium");
    assert("invtriangle"@.len() != "invtrapezium"@.len());
    reveal_strlit("parallelogram");
    assert("invtriangle"@.len() != "parallelogram"@.len());
    reveal_strlit("triangle");
    assert("invtriangle"@.len() != "triangle"@.len());
}

proof fn lemma_shape_name_20()
    ensures
        shape_of_name("pentagon"@) == Some(NodeShape::Pentagon),
{
    reveal_strlit("pentagon");
    reveal_strlit("box");
    assert("pentagon"@.len() != "box"@.len());
    reveal_strlit("rect");
    assert("pentagon"@.len() != "rect"@.len());
    reveal_strlit("rectangle");
    assert("pentagon"@.len() != "rectangle"@.len());
    reveal_strlit("square");
    assert("pentagon"@.len() != "square"@.len());
    reveal_strlit("folder");
    assert("pentagon"@.len() != "folder"@.len());
    reveal_strlit("box3d");
    assert("pentagon"@.len() != "box3d"@.len());
    reveal_strlit("house");
    assert("pentagon"@.len() != "house"@.len());
    reveal_strlit("invhouse");
    assert("pentagon"@[0] != "invhouse"@[0]);
    reveal_strlit("roundedbox");
    assert("pentagon"@.len() != "roundedbox"@.len());
    reveal_strlit("rounded");
    assert("pentagon"@.len() != "rounded"@.len());
    reveal_strlit("diamond");
    assert("pentagon"@.len() != "diamond"@.len());
    reveal_strlit("circle");
    assert("pentagon"@.len() != "circle"@.len());
    reveal_strlit("point");
    assert("pentagon"@.len() != "point"@.len());
    reveal_strlit("doublecircle");
    assert("pentagon"@.len() != "doublecircle"@.len());
    reveal_strlit("hexagon");
    assert("pentagon"@.len() != "hexagon"@.len());
    reveal_strlit("trapezium");
    assert("pentagon"@.len() != "trapezium"@.len());
    reveal_strlit("invtrapezium");
    assert("pentagon"@.len() != "invtrapezium"@.len());
    reveal_strlit("parallelogram");
    assert("pentagon"@.len() != "parallelogram"@.len());
    reveal_strlit("triangle");
    assert("pentagon"@[0] != "triangle"@[0]);
    reveal_strlit("invtriangle");
    assert("pentagon"@.len() != "invtriangle"@.len());
}

proof fn lemma_shape_name_21()
    ensures
        shape_of_name("star"@) == Some(NodeShape::Star),
{
    reveal_strlit("star");
    reveal_strlit("box");
    assert("star"@.len() != "box"@.len());
    reveal_strlit("rect");
    assert("star"@[0] != "rect"@[0]);
    reveal_strlit("rectangle");
    assert("star"@.len() != "rectangle"@.len());
    reveal_strlit("square");
    assert("star"@.len() != "square"@.len());
    reveal_strlit("folder");
    assert("star"@.len() != "folder"@.len());
    reveal_strlit("box3d");
    assert("star"@.len() != "box3d"@.len());
    reveal_strlit("house");
    assert("star"@.len() != "house"@.len());
    reveal_strlit("invhouse");
    assert("star"@.len() != "invhouse"@.len());
    reveal_strlit("roundedbox");
    assert("star"@.len() != "roundedbox"@.len());
    reveal_strlit("rounded");
    assert("star"@.len() != "rounded"@.len());
    reveal_strlit("diamond");
    assert("star"@.len() != "diamond"@.len());
    reveal_strlit("circle");
    assert("star"@.len() != "circle"@.len());
    reveal_strlit("point");
    assert("star"@.len() != "point"@.len());
    reveal_strlit("doublecircle");
    assert("star"@.len() != "doublecircle"@.len());
    reveal_strlit("hexagon");
    assert("star"@.len() != "hexagon"@.len());
    reveal_strlit("trapezium");
    assert("star"@.len() != "trapezium"@.len());
    reveal_strlit("invtrapezium");
    assert("star"@.len() != "invtrapezium"@.len());
    reveal_strlit("parallelogram");
    assert("star"@.len() != "parallelogram"@.len());
    reveal_strlit("triangle");
    assert("star"@.len() != "triangle"@.len());
    reveal_strlit("invtriangle");
    assert("star"@.len() != "invtriangle"@.len());
    reveal_strlit("pentagon");
    assert("star"@.len() != "pentagon"@.len());
}

proof fn lemma_shape_name_22()
    ensures
        shape_of_name("cylinder"@) == Some(NodeShape::Cylinder),
{
    reveal_strlit("cylinder");
    reveal_strlit("box");
    assert("cylinder"@.len() != "box"@.len());
    reveal_strlit("rect");
    assert("cylinder"@.len() != "rect"@.len());
    reveal_strlit("rectangle");
    assert("cylinder"@.len() != "rectangle"@.len());
    reveal_strlit("square");
    assert("cylinder"@.len() != "square"@.len());
    reveal_strlit("folder");
    assert("cylinder"@.len() != "folder"@.len());
    reveal_strlit("box3d");
    assert("cylinder"@.len() != "box3d"@.len());
    reveal_strlit("house");
    assert("cylinder"@.len() != "house"@.len());
    reveal_strlit("invhouse");
    assert("cylinder"@[0] != "invhouse"@[0]);
    reveal_strlit("roundedbox");
    assert("cylinder"@.len() != "roundedbox"@.len());
    reveal_strlit("rounded");
    assert("cylinder"@.len() != "rounded"@.len());
    reveal_strlit("diamond");
    assert("cylinder"@.len() != "diamond"@.len());
    reveal_strlit("circle");
    assert("cylinder"@.len() != "circle"@.len());
    reveal_strlit("point");
    assert("cylinder"@.len() != "point"@.len());
    reveal_strlit("doublecircle");
    assert("cylinder"@.len() != "doublecircle"@.len());
    reveal_strlit("hexagon");
    assert("cylinder"@.len() != "hexagon"@.len());
    reveal_strlit("trapezium");
    assert("cylinder"@.len() != "trapezium"@.len());
    reveal_strlit("invtrapezium");
    assert("cylinder"@.len() != "invtrapezium"@.len());
    reveal_strlit("parallelogram");
    assert("cylinder"@.len() != "parallelogram"@.len());
    reveal_strlit("triangle");
    assert("cylinder"@[0] != "triangle"@[0]);
    reveal_strlit("invtriangle");
    assert("cylinder"@.len() != "invtriangle"@.len());
    reveal_strlit("pentagon");
    assert("cylinder"@[0] != "pentagon"@[0]);
    reveal_strlit("star");
    assert("cylinder"@.len() != "star"@.len());
}

proof fn lemma_shape_name_23()
    ensures
        shape_of_name("note"@) == Some(NodeShape::Note),
{
    reveal_strlit("note");
    reveal_strlit("box");
    assert("note"@.len() != "box"@.len());
    reveal_strlit("rect");
    assert("note"@[0] != "rect"@[0]);
    reveal_strlit("rectangle");
    assert("note"@.len() != "rectangle"@.len());
    reveal_strlit("square");
    assert("note"@.len() != "square"@.len());
    reveal_strlit("folder");
    assert("note"@.len() != "folder"@.len());
    reveal_strlit("box3d");
    assert("note"@.len() != "box3d"@.len());
    reveal_strlit("house");
    assert("note"@.len() != "house"@.len());
    reveal_strlit("invhouse");
    assert("note"@.len() != "invhouse"@.len());
    reveal_strlit("roundedbox");
    assert("note"@.len() != "roundedbox"@.len());
    reveal_strlit("rounded");
    assert("note"@.len() != "rounded"@.len());
    reveal_strlit("diamond");
    assert("note"@.len() != "diamond"@.len());
    reveal_strlit("circle");
    assert("note"@.len() != "circle"@.len());
    reveal_strlit("point");
    assert("note"@.len() != "point"@.len());
    reveal_strlit("doublecircle");
    assert("note"@.len() != "doublecircle"@.len());
    reveal_strlit("hexagon");
    assert("note"@.len() != "hexagon"@.len());
    reveal_strlit("trapezium");
    assert("note"@.len() != "trapezium"@.len());
    reveal_strlit("invtrapezium");
    assert("note"@.len() != "invtrapezium"@.len());
    reveal_strlit("parallelogram");
    assert("note"@.len() != "parallelogram"@.len());
    reveal_strlit("triangle");
    assert("note"@.len() != "triangle"@.len());
    reveal_strlit("invtriangle");
    assert("note"@.len() != "invtriangle"@.len());
    reveal_strlit("pentagon");
    assert("note"@.len() != "pentagon"@.len());
    reveal_strlit("star");
    assert("note"@[0] != "star"@[0]);
    reveal_strlit("cylinder");
    assert("note"@.len() != "cylinder"@.len());
}

proof fn lemma_shape_name_24()
    ensures
        shape_of_name("tab"@) == Some(NodeShape::Note),
{
    reveal_strlit("tab");
    reveal_strlit("box");
    assert("tab"@[0] != "box"@[0]);
    reveal_strlit("rect");
    assert("tab"@.len() != "rect"@.len());
    reveal_strlit("rectangle");
    assert("tab"@.len() != "rectangle"@.len());
    reveal_strlit("square");
    assert("tab"@.len() != "square"@.len());
    reveal_strlit("folder");
    assert("tab"@.len() != "folder"@.len());
    reveal_strlit("box3d");
    assert("tab"@.len() != "box3d"@.len());
    reveal_strlit("house");
    assert("tab"@.len() != "house"@.len());
    reveal_strlit("invhouse");
    assert("tab"@.len() != "invhouse"@.len());
    reveal_strlit("roundedbox");
    assert("tab"@.len() != "roundedbox"@.len());
    reveal_strlit("rounded");
    assert("tab"@.len() != "rounded"@.len());
    reveal_strlit("diamond");
    assert("tab"@.len() != "diamond"@.len());
    reveal_strlit("circle");
    assert("tab"@.len() != "circle"@.len());
    reveal_strlit("point");
    assert("tab"@.len() != "point"@.len());
    reveal_strlit("doublecircle");
    assert("tab"@.len() != "doublecircle"@.len());
    reveal_strlit("hexagon");
    assert("tab"@.len() != "hexagon"@.len());
    reveal_strlit("trapezium");
    assert("tab"@.len() != "trapezium"@.len());
    reveal_strlit("invtrapezium");
    assert("tab"@.len() != "invtrapezium"@.len());
    reveal_strlit("parallelogram");
    assert("tab"@.len() != "parallelogram"@.len());
    reveal_strlit("triangle");
    assert("tab"@.len() != "triangle"@.len());
    reveal_strlit("invtriangle");
    assert("tab"@.len() != "invtriangle"@.len());
    reveal_strlit("pentagon");
    assert("tab"@.len() != "pentagon"@.len());
    reveal_strlit("star");
    assert("tab"@.len() != "star"@.len());
    reveal_strlit("cylinder");
    assert("tab"@.len() != "cylinder"@.len());
    reveal_strlit("note");
    assert("tab"@.len() != "note"@.len());
}

proof fn lemma_shape_name_25()
    ensures
        shape_of_name("cds"@) == Some(NodeShape::Subroutine),
{
    reveal_strlit("cds");
    reveal_strlit("box");
    assert("cds"@[0] != "box"@[0]);
    reveal_strlit("rect");
    assert("cds"@.len() != "rect"@.len());
    reveal_strlit("rectangle");
    assert("cds"@.len() != "rectangle"@.len());
    reveal_strlit("square");
    assert("cds"@.len() != "square"@.len());
    reveal_strlit("folder");
    assert("cds"@.len() != "folder"@.len());
    reveal_strlit("box3d");
    assert("cds"@.len() != "box3d"@.len());
    reveal_strlit("house");
    assert("cds"@.len() != "house"@.len());
    reveal_strlit("invhouse");
    assert("cds"@.len() != "invhouse"@.len());
    reveal_strlit("roundedbox");
    assert("cds"@.len() != "roundedbox"@.len());
    reveal_strlit("rounded");
    assert("cds"@.len() != "rounded"@.len());
    reveal_strlit("diamond");
    assert("cds"@.len() != "diamond"@.len());
    reveal_strlit("circle");
    assert("cds"@.len() != "circle"@.len());
    reveal_strlit("point");
    assert("cds"@.len() != "point"@.len());
    reveal_strlit("doublecircle");
    assert("cds"@.len() != "doublecircle"@.len());
    reveal_strlit("hexagon");
    assert("cds"@.len() != "hexagon"@.len());
    reveal_strlit("trapezium");
    assert("cds"@.len() != "trapezium"@.len());
    reveal_strlit("invtrapezium");
    assert("cds"@.len() != "invtrapezium"@.len());
    reveal_strlit("parallelogram");
    assert("cds"@.len() != "parallelogram"@.len());
    reveal_strlit("triangle");
    assert("cds"@.len() != "triangle"@.len());
    reveal_strlit("invtriangle");
    assert("cds"@.len() != "invtriangle"@.len());
    reveal_strlit("pentagon");
    assert("cds"@.len() != "pentagon"@.len());
    reveal_strlit("star");
    assert("cds"@.len() != "star"@.len());
    reveal_strlit("cylinder");
    assert("cds"@.len() != "cylinder"@.len());
    reveal_strlit("note");
    assert("cds"@.len() != "note"@.len());
    reveal_strlit("tab");
    assert("cds"@[0] != "tab"@[0]);
}

proof fn lemma_shape_name_26()
    ensures
        shape_of_name("component"@) == Some(NodeShape::Subroutine),
{
    reveal_strlit("component");
    reveal_strlit("box");
    assert("component"@.len() != "box"@.len());
    reveal_strlit("rect");
    assert("component"@.len() != "rect"@.len());
    reveal_strlit("rectangle");
    assert("component"@[0] != "rectangle"@[0]);
    reveal_strlit("square");
    assert("component"@.len() != "square"@.len());
    reveal_strlit("folder");
    assert("component"@.len() != "folder"@.len());
    reveal_strlit("box3d");
    assert("component"@.len() != "box3d"@.len());
    reveal_strlit("house");
    assert("component"@.len() != "house"@.len());
    reveal_strlit("invhouse");
    assert("component"@.len() != "invhouse"@.len());
    reveal_strlit("roundedbox");
    assert("component"@.len() != "roundedbox"@.len());
    reveal_strlit("rounded");
    assert("component"@.len() != "rounded"@.len());
    reveal_strlit("diamond");
    assert("component"@.len() != "diamond"@.len());
    reveal_strlit("circle");
    assert("component"@.len() != "circle"@.len());
    reveal_strlit("point");
    assert("component"@.len() != "point"@.len());
    reveal_strlit("doublecircle");
    assert("component"@.len() != "doublecircle"@.len());
    reveal_strlit("hexagon");
    assert("component"@.len() != "hexagon"@.len());
    reveal_strlit("trapezium");
    assert("component"@[0] != "trapezium"@[0]);
    reveal_strlit("invtrapezium");
    assert("component"@.len() != "invtrapezium"@.len());
    reveal_strlit("parallelogram");
    assert("component"@.len() != "parallelogram"@.len());
    reveal_strlit("triangle");
    assert("component"@.len() != "triangle"@.len());
    reveal_strlit("invtriangle");
    assert("component"@.len() != "invtriangle"@.len());
    reveal_strlit("pentagon");
    assert("component"@.len() != "pentagon"@.len());
    reveal_strlit("star");
    assert("component"@.len() != "star"@.len());
    reveal_strlit("cylinder");
    assert("component"@.len() != "cylinder"@.len());
    reveal_strlit("note");
    assert("component"@.len() != "note"@.len());
    reveal_strlit("tab");
    assert("component"@.len() != "tab"@.len());
    reveal_strlit("cds");
    assert("component"@.len() != "cds"@.len());
}

/// Every DOT shape name gives the shape it depicts, and every name of a shape gives that shape:
/// `cylinder` is a cylinder, `diamond` a diamond, `box` a rectangle, and no name is read as
/// another shape's or dropped.
pub proof fn law_dot_shape_names(n: Seq<char>, sh: NodeShape)
    ensures
        shape_of_name(n) matches Some(x) ==> dot_names_of(x).contains(n),
        dot_names_of(sh).contains(n) ==> shape_of_name(n) == Some(sh),
{
    lemma_shape_name_0();
    lemma_shape_name_1();
    lemma_shape_name_2();
    lemma_shape_name_3();
    lemma_shape_name_4();
    lemma_shape_name_5();
    lemma_shape_name_6();
    lemma_shape_name_7();
    lemma_shape_name_8();
    lemma_shape_name_9();
    lemma_shape_name_10();
    lemma_shape_name_11();
    lemma_shape_name_12();
    lemma_shape_name_13();
    lemma_shape_name_14();
    lemma_shape_name_15();
    lemma_shape_name_16();
    lemma_shape_name_17();
    lemma_shape_name_18();
    lemma_shape_name_19();
    lemma_shape_name_20();
    lemma_shape_name_21();
    lemma_shape_name_22();
    lemma_shape_name_23();
    lemma_shape_name_24();
    lemma_shape_name_25();
    lemma_shape_name_26();
}

/// The shape a DOT `shape` value names: trimmed, surrounding `"`s dropped, ASCII-lowercased.
pub open spec fn spec_shape_value(v: Seq<char>) -> Option<NodeShape> {
    shape_of_name(trim_char(trim(v), '"').map_values(|c: char| ascii_lower_char(c)))
}

fn shape_of_name_exec(n: &Vec<char>) -> (r: Option<NodeShape>)
    ensures
        r == shape_of_name(n@),
{
    if eq(n, "box") || eq(n, "rect") || eq(n, "rectangle") || eq(n, "square") || eq(n, "folder")
        || eq(n, "box3d") || eq(n, "house") || eq(n, "invhouse") {
        Some(NodeShape::Rect)
    } else if eq(n, "roundedbox") || eq(n, "rounded") {
        Some(NodeShape::Rounded)
    } else if eq(n, "diamond") {
        Some(NodeShape::Diamond)
    } else if eq(n, "circle") || eq(n, "point") || eq(n, "doublecircle") {
        Some(NodeShape::Circle)
    } else if eq(n, "hexagon") {
        Some(NodeShape::Hexagon)
    } else if eq(n, "trapezium") {
        Some(NodeShape::Trapezoid)
    } else if eq(n, "invtrapezium") {
        Some(NodeShape::InvTrapezoid)
    } else if eq(n, "parallelogram") {
        Some(NodeShape::Parallelogram)
    } else if eq(n, "triangle") || eq(n, "invtriangle") {
        Some(NodeShape::Triangle)
    } else if eq(n, "pentagon") {
        Some(NodeShape::Pentagon)
    } else if eq(n, "star") {
        Some(NodeShape::Star)
    } else if eq(n, "cylinder") {
        Some(NodeShape::Cylinder)
    } else if eq(n, "note") || eq(n, "tab") {
        Some(NodeShape::Note)
    } else if eq(n, "cds") || eq(n, "component") {
        Some(NodeShape::Subroutine)
    } else {
        None
    }
}

pub fn parse_dot_shape_value(v: &Vec<char>) -> (r: Option<NodeShape>)
    ensures
        r == spec_shape_value(v@),
{
    let n = v.len();
    assert(v@.subrange(0, n as int) =~= v@);
    let (a, b) = trim_window(v, 0, n);
    let (c, d) = trim_char_window(v, a, b, '"');
    let lower = ascii_lower_window(v, c, d);
    shape_of_name_exec(&lower)
}

/// The shape named by the `shape` attribute of the list `s`.
pub open spec fn spec_node_shape(s: Seq<char>) -> Option<NodeShape> {
    match spec_attr(s, "shape"@) {
        Some(v) => spec_shape_value(v),
        None => None,
    }
}

pub fn parse_dot_shape(s: &Vec<char>) -> (r: Option<NodeShape>)
    ensures
        r == spec_node_shape(s@),
{
    match extract_dot_attribute_raw(s, "shape") {
        Some(v) => parse_dot_shape_value(&v),
        None => None,
    }
}

// ---------------------------------------------------------------------------------------------
// Edge styles.
/// The line styles an edge can be drawn with.
#[derive(Debug, Clone, Copy, PartialEq, Eq, Structural)]
pub enum DotEdgeStyle {
    Dotted,
    Bold,
}

/// The first style among the comma-separated tokens of `t` from index `i` on that this engine
/// draws: `dashed` or `dotted` (as dotted) and `bold`, ignoring ASCII case.
pub open spec fn style_from(t: Seq<char>, i: int) -> Option<DotEdgeStyle>
    decreases t.len() - i,
{
    if i < 0 || i > t.len() {
        None
    } else {
        let k = i + idx_of(t.subrange(i, t.len() as int), ',');
        let tok = trim(t.subrange(i, k));
        if same_ci(tok, "dashed"@) || same_ci(tok, "dotted"@) {
            Some(DotEdgeStyle::Dotted)
        } else if same_ci(tok, "bold"@) {
            Some(DotEdgeStyle::Bold)
        } else if k >= t.len() {
            None
        } else {
            style_from(t, k + 1)
        }
    }
}

/// A single `style` word (no comma list) gives the style it names, in any ASCII case: `dotted`
/// and `dashed` a dotted edge, `bold` a thick one, and any other word none.
pub proof fn law_edge_style_word(t: Seq<char>)
    requires
        !t.contains(','),
    ensures
        (style_from(t, 0) == Some(DotEdgeStyle::Dotted)) == (same_ci(trim(t), "dotted"@) || same_ci(trim(t), "dashed"@)),
        (style_from(t, 0) == Some(DotEdgeStyle::Bold)) == same_ci(trim(t), "bold"@),
        style_from(t, 0) is None == !(same_ci(trim(t), "dotted"@) || same_ci(trim(t), "dashed"@) || same_ci(
            trim(t),
            "bold"@,
        )),
{
    let u = t.subrange(0, t.len() as int);
    assert(u =~= t);
    crate::text::lemma_idx_of(u, ',');
    if idx_of(u, ',') < u.len() {
        assert(t.contains(','));
    }
    assert(idx_of(u, ',') == t.len());
    assert(t.subrange(0, t.len() as int) =~= t);
    reveal_strlit("bold");
    reveal_strlit("dotted");
    reveal_strlit("dashed");
    if same_ci(trim(t), "bold"@) {
        assert(!same_ci(trim(t), "dotted"@));
        assert(!same_ci(trim(t), "dashed"@));
    }
}

/// The edge style the `style` attribute of the list `s` asks for.
pub open spec fn spec_edge_style(s: Seq<char>) -> Option<DotEdgeStyle> {
    match spec_attr(s, "style"@) {
        Some(v) => style_from(trim_quotes(trim(v)), 0),
        None => None,
    }
}

fn same_ci_w(s: &Vec<char>, a: usize, b: usize, t: &str) -> (r: bool)
    requires
        a <= b <= s@.len(),
    ensures
        r == same_ci(s@.subrange(a as int, b as int), t@),
{
    let w = window_vec(s, a, b);
    let lower = chars_of(t);
    let n = w.len();
    if n != lower.len() {
        return false;
    }
    let mut k: usize = 0;
    while k < n
        invariant
            k <= n == w@.len() == lower@.len(),
            lower@ == t@,
            w@ == s@.subrange(a as int, b as int),
            forall|m: int| 0 <= m < k ==> crate::text::eq_ci(w@[m], lower@[m]),
        decreases n - k,
    {
        if !crate::text::char_eq_ci(w[k], lower[k]) {
            return false;
        }
        k = k + 1;
    }
    true
}

pub fn parse_dot_edge_style(s: &Vec<char>) -> (r: Option<DotEdgeStyle>)
    ensures
        r == spec_edge_style(s@),
{
    let v = match extract_dot_attribute_raw(s, "style") {
        Some(v) => v,
        None => return None,
    };
    let n = v.len();
    assert(v@.subrange(0, n as int) =~= v@);
    let (a0, b0) = trim_window(&v, 0, n);
    let (a, b) = trim_quotes_window(&v, a0, b0);
    let ghost t = v@.subrange(a as int, b as int);
    assert(spec_edge_style(s@) == style_from(t, 0));
    let mut i = a;
    loop
        invariant
            a <= i <= b <= v@.len(),
            t == v@.subrange(a as int, b as int),
            spec_edge_style(s@) == style_from(t, 0),
            style_from(t, i - a) == style_from(t, 0),
        decreases b - i,
    {
        let k = index_of_char(&v, i, b, ',');
        assert(t.subrange(i - a, t.len() as int) =~= v@.subrange(i as int, b as int));
        assert(t.subrange(i - a, k - a) =~= v@.subrange(i as int, k as int));
        let (ta, tb) = trim_window(&v, i, k);
        if same_ci_w(&v, ta, tb, "dashed") || same_ci_w(&v, ta, tb, "dotted") {
            return Some(DotEdgeStyle::Dotted);
        }
        if same_ci_w(&v, ta, tb, "bold") {
            return Some(DotEdgeStyle::Bold);
        }
        if k >= b {
            return None;
        }
        i = k + 1;
    }
}

/// The arrow of a DOT edge, given whether the graph is directed and the style in force.
pub open spec fn spec_dot_arrow(directed: bool, style: Option<DotEdgeStyle>) -> ArrowType {
    match style {
        None => if directed {
            ArrowType::Arrow
        } else {
            ArrowType::Line
        },
        Some(DotEdgeStyle::Dotted) => if directed {
            ArrowType::DottedArrow
        } else {
            ArrowType::DottedLine
        },
        Some(DotEdgeStyle::Bold) => if directed {
            ArrowType::ThickArrow
        } else {
            ArrowType::ThickLine
        },
    }
}

/// An edge drawn with `style=dotted` or `dashed` is dotted, one drawn `bold` thick, any other
/// plain; it points exactly when its graph or its operator is directed.
pub proof fn law_dot_arrow_kind(directed: bool, style: Option<DotEdgeStyle>)
    ensures
        ({
            let a = spec_dot_arrow(directed, style);
            &&& (a == ArrowType::Arrow || a == ArrowType::DottedArrow || a == ArrowType::ThickArrow) == directed
            &&& (a == ArrowType::DottedArrow || a == ArrowType::DottedLine) == (style == Some(DotEdgeStyle::Dotted))
            &&& (a == ArrowType::ThickArrow || a == ArrowType::ThickLine) == (style == Some(DotEdgeStyle::Bold))
            &&& (a == ArrowType::Arrow || a == ArrowType::Line) == (style is None)
        }),
{
}

pub fn dot_arrow_type(directed: bool, style: Option<DotEdgeStyle>) -> (r: ArrowType)
    ensures
        r == spec_dot_arrow(directed, style),
{
    match style {
        None => if directed {
            ArrowType::Arrow
        } else {
            ArrowType::Line
        },
        Some(DotEdgeStyle::Dotted) => if directed {
            ArrowType::DottedArrow
        } else {
            ArrowType::DottedLine
        },
        Some(DotEdgeStyle::Bold) => if directed {
            ArrowType::ThickArrow
        } else {
            ArrowType::ThickLine
        },
    }
}

// ---------------------------------------------------------------------------------------------
// Subgraph headers.
/// `s` without its trailing run of `{`.
pub open spec fn trim_end_braces(s: Seq<char>) -> Seq<char> {
    s.take(s.len() - trail_run(s, '{'))
}

/// The cleaned optional title of a subgraph header: trimmed, `"` and `'` runs removed, trimmed.
pub open spec fn clean_optional(raw: Seq<char>) -> Option<Seq<char>> {
    let c = trim(trim_char(trim_char(trim(raw), '"'), '\''));
    if c.len() > 0 {
        Some(c)
    } else {
        None
    }
}

/// The body of a `subgraph …` statement, if it is one.
pub open spec fn subgraph_body(stmt: Seq<char>) -> Option<Seq<char>> {
    if starts_with(stmt, "subgraph "@) {
        Some(trim(trim_end_braces(trim(stmt.skip(9)))))
    } else if stmt == "subgraph"@ {
        Some(Seq::empty())
    } else {
        None
    }
}

/// A DOT subgraph header on line `line`: its lookup key (`cluster_anon_line_<line>` when it has
/// no name, else the normalised name) and its optional title.
pub open spec fn spec_subgraph_start(stmt: Seq<char>, line: nat) -> Option<(Seq<char>, Option<Seq<char>>)> {
    match subgraph_body(stmt) {
        None => None,
        Some(body) => {
            let key = if body.len() == 0 {
                "cluster_anon_line_"@ + dec_digits(line)
            } else {
                spec_normalize_identifier(body, true)
            };
            if key.len() == 0 {
                None
            } else {
                Some((key, clean_optional(body)))
            }
        },
    }
}

pub fn parse_subgraph_start(s: &Vec<char>, lo: usize, hi: usize, line: usize) -> (r: Option<
    (String, Option<String>),
>)
    requires
        lo <= hi <= s@.len(),
    ensures
        r matches Some((k, t)) ==> spec_subgraph_start(s@.subrange(lo as int, hi as int), line as nat)
            == Some(
            (
                k@,
                match t {
                    Some(x) => Some(x@),
                    None => None,
                },
            ),
        ),
        r is None ==> spec_subgraph_start(s@.subrange(lo as int, hi as int), line as nat) is None,
{
    proof {
        reveal_strlit("subgraph ");
    }
    let w = window_vec(s, lo, hi);
    let n = w.len();
    assert(w@.subrange(0, n as int) =~= w@);
    let (ba, bb) = if crate::text::matches_at(&w, 0, n, 0, &chars_of("subgraph ")) {
        let (a, b) = trim_window(s, lo + 9, hi);
        assert(s@.subrange(lo as int, hi as int).skip(9) =~= s@.subrange(lo + 9, hi as int));
        let mut e = b;
        while e > a && s[e - 1] == '{'
            invariant
                a <= e <= b <= s@.len(),
                trail_run(s@.subrange(a as int, b as int), '{') == (b - e) + trail_run(
                    s@.subrange(a as int, e as int),
                    '{',
                ),
            decreases e - a,
        {
            assert(s@.subrange(a as int, e as int).drop_last() =~= s@.subrange(a as int, e - 1));
            e = e - 1;
        }
        assert(s@.subrange(a as int, b as int).take(e - a) =~= s@.subrange(a as int, e as int));
        trim_window(s, a, e)
    } else if crate::detect::chars_eq_str(&w, "subgraph") {
        assert(s@.subrange(lo as int, lo as int) =~= Seq::<char>::empty());
        (lo, lo)
    } else {
        return None;
    };
    let key = if ba == bb {
        let mut k: Vec<char> = Vec::new();
        push_str(&mut k, "cluster_anon_line_");
        push_decimal(&mut k, line);
        string_from_chars(&k)
    } else {
        let body = string_of_window(s, ba, bb);
        normalize_dot_identifier(body.as_str())
    };
    if key.as_str().is_empty() {
        return None;
    }
    let (c1, d1) = trim_window(s, ba, bb);
    let (c2, d2) = trim_char_window(s, c1, d1, '"');
    let (c3, d3) = trim_char_window(s, c2, d2, '\'');
    let (c4, d4) = trim_window(s, c3, d3);
    let title = if c4 < d4 {
        Some(string_of_window(s, c4, d4))
    } else {
        None
    };
    Some((key, title))
}

// ---------------------------------------------------------------------------------------------
// Colours and typography.
/// A DOT element's visual attributes, as text.
pub struct ColorsView {
    pub color: Option<Seq<char>>,
    pub fill: Option<Seq<char>>,
    pub filled: bool,
    pub penwidth: Option<Seq<char>>,
    pub font_size: Option<Seq<char>>,
    pub font_name: Option<Seq<char>>,
}

/// The value of attribute `key` with surrounding whitespace and quotes removed, when non-empty.
pub open spec fn attr_text(s: Seq<char>, key: Seq<char>) -> Option<Seq<char>> {
    match spec_attr(s, key) {
        Some(v) => {
            let t = trim_quotes(trim(v));
            if t.len() > 0 {
                Some(t)
            } else {
                None
            }
        },
        None => None,
    }
}

/// Whether some comma-separated token of `v` from index `i` on reads `filled`.
pub open spec fn filled_from(v: Seq<char>, i: int) -> bool
    decreases v.len() - i,
{
    if i < 0 || i > v.len() {
        false
    } else {
        let k = i + idx_of(v.subrange(i, v.len() as int), ',');
        same_ci(trim_quotes(trim(v.subrange(i, k))), "filled"@) || (k < v.len() && filled_from(
            v,
            k + 1,
        ))
    }
}

/// The visual attributes of the list `s`.
pub open spec fn spec_colors(s: Seq<char>) -> ColorsView {
    ColorsView {
        color: attr_text(s, "color"@),
        fill: attr_text(s, "fillcolor"@),
        filled: match spec_attr(s, "style"@) {
            Some(v) => filled_from(v, 0),
            None => false,
        },
        penwidth: attr_text(s, "penwidth"@),
        font_size: attr_text(s, "fontsize"@),
        font_name: attr_text(s, "fontname"@),
    }
}

pub open spec fn pick(a: Option<Seq<char>>, b: Option<Seq<char>>) -> Option<Seq<char>> {
    if a is Some {
        a
    } else {
        b
    }
}

/// `c` laid over `base`, attribute by attribute.
pub open spec fn resolved_over(c: ColorsView, base: ColorsView) -> ColorsView {
    ColorsView {
        color: pick(c.color, base.color),
        fill: pick(c.fill, base.fill),
        filled: c.filled || base.filled,
        penwidth: pick(c.penwidth, base.penwidth),
        font_size: pick(c.font_size, base.font_size),
        font_name: pick(c.font_name, base.font_name),
    }
}

pub open spec fn opt_prop(prefix: Seq<char>, v: Option<Seq<char>>, suffix: Seq<char>) -> Seq<
    Seq<char>,
> {
    match v {
        Some(x) => seq![prefix + x + suffix],
        None => Seq::empty(),
    }
}

/// Stroke width and typography.
pub open spec fn shared_props(c: ColorsView) -> Seq<Seq<char>> {
    opt_prop("stroke-width:"@, c.penwidth, Seq::empty()) + opt_prop(
        "font-size:"@,
        c.font_size,
        "pt"@,
    ) + opt_prop("font-family:"@, c.font_name, Seq::empty())
}

/// A node's CSS properties: with `style=filled` and no fill colour the colour fills the shape;
/// otherwise the fill colour fills it and the colour strokes it.
pub open spec fn node_props(c: ColorsView) -> Seq<Seq<char>> {
    (if c.filled && c.fill is None && c.color is Some {
        opt_prop("fill:"@, c.color, Seq::empty())
    } else {
        opt_prop("fill:"@, c.fill, Seq::empty()) + opt_prop("stroke:"@, c.color, Seq::empty())
    }) + shared_props(c)
}

/// An edge's CSS properties: the colour is always the stroke.
pub open spec fn edge_props(c: ColorsView) -> Seq<Seq<char>> {
    opt_prop("stroke:"@, c.color, Seq::empty()) + shared_props(c)
}

pub open spec fn join_comma(ps: Seq<Seq<char>>) -> Seq<char>
    decreases ps.len(),
{
    if ps.len() == 0 {
        Seq::empty()
    } else if ps.len() == 1 {
        ps[0]
    } else {
        join_comma(ps.drop_last()) + seq![','] + ps.last()
    }
}

/// The CSS for the properties `ps`, or nothing when there are none.
pub open spec fn css_of(ps: Seq<Seq<char>>) -> Option<Seq<char>> {
    if ps.len() == 0 {
        None
    } else {
        Some(join_comma(ps))
    }
}

/// The exec form of [`ColorsView`].
pub struct DotNodeColors {
    pub color: Option<Vec<char>>,
    pub fill: Option<Vec<char>>,
    pub filled: bool,
    pub penwidth: Option<Vec<char>>,
    pub font_size: Option<Vec<char>>,
    pub font_name: Option<Vec<char>>,
}

/// No colour, fill, pen width or font.
pub open spec fn no_colors() -> ColorsView {
    ColorsView { color: None, fill: None, filled: false, penwidth: None, font_size: None, font_name: None }
}

pub open spec fn opt_view(o: Option<Vec<char>>) -> Option<Seq<char>> {
    match o {
        Some(v) => Some(v@),
        None => None,
    }
}

fn copy_opt(o: &Option<Vec<char>>) -> (r: Option<Vec<char>>)
    ensures
        opt_view(r) == opt_view(*o),
{
    match o {
        Some(v) => {
            let n = v.len();
            assert(v@.subrange(0, n as int) =~= v@);
            Some(window_vec(v, 0, n))
        },
        None => None,
    }
}

fn attr_text_exec(s: &Vec<char>, key: &str) -> (r: Option<Vec<char>>)
    ensures
        opt_view(r) == attr_text(s@, key@),
{
    match extract_dot_attribute_raw(s, key) {
        Some(v) => {
            let n = v.len();
            assert(v@.subrange(0, n as int) =~= v@);
            let (a, b) = trim_window(&v, 0, n);
            let (c, d) = trim_quotes_window(&v, a, b);
            if c < d {
                Some(window_vec(&v, c, d))
            } else {
                None
            }
        },
        None => None,
    }
}

fn filled_exec(v: &Vec<char>) -> (r: bool)
    ensures
        r == filled_from(v@, 0),
{
    let n = v.len();
    let mut i: usize = 0;
    loop
        invariant
            i <= n == v@.len(),
            filled_from(v@, i as int) == filled_from(v@, 0),
        decreases n - i,
    {
        let k = index_of_char(v, i, n, ',');
        let (a, b) = trim_window(v, i, k);
        let (c, d) = trim_quotes_window(v, a, b);
        if same_ci_w(v, c, d, "filled") {
            return true;
        }
        if k >= n {
            return false;
        }
        i = k + 1;
    }
}

impl DotNodeColors {
    pub open spec fn view_parts(&self) -> ColorsView {
        ColorsView {
            color: opt_view(self.color),
            fill: opt_view(self.fill),
            filled: self.filled,
            penwidth: opt_view(self.penwidth),
            font_size: opt_view(self.font_size),
            font_name: opt_view(self.font_name),
        }
    }

    pub fn empty() -> (r: DotNodeColors)
        ensures
            r.view_parts() == no_colors(),
    {
        DotNodeColors {
            color: None,
            fill: None,
            filled: false,
            penwidth: None,
            font_size: None,
            font_name: None,
        }
    }

    /// Read every visual attribute off one attribute list.
    pub fn parse(s: &Vec<char>) -> (r: DotNodeColors)
        ensures
            r.view_parts() == spec_colors(s@),
    {
        let filled = match extract_dot_attribute_raw(s, "style") {
            Some(v) => filled_exec(&v),
            None => false,
        };
        DotNodeColors {
            color: attr_text_exec(s, "color"),
            fill: attr_text_exec(s, "fillcolor"),
            filled,
            penwidth: attr_text_exec(s, "penwidth"),
            font_size: attr_text_exec(s, "fontsize"),
            font_name: attr_text_exec(s, "fontname"),
        }
    }

    /// Whether this carries nothing.
    pub fn is_empty(&self) -> (r: bool)
        ensures
            r == (self.color is None && self.fill is None && !self.filled && self.penwidth is None
                && self.font_size is None && self.font_name is None),
    {
        self.color.is_none() && self.fill.is_none() && !self.filled && self.penwidth.is_none()
            && self.font_size.is_none() && self.font_name.is_none()
    }

    /// `self` laid over `base`.
    pub fn resolved_over(&self, base: &DotNodeColors) -> (r: DotNodeColors)
        ensures
            r.view_parts() == resolved_over(self.view_parts(), base.view_parts()),
    {
        let pick_exec = |a: &Option<Vec<char>>, b: &Option<Vec<char>>| -> (r: Option<Vec<char>>)
            ensures
                opt_view(r) == pick(opt_view(*a), opt_view(*b)),
            {
                if a.is_some() {
                    copy_opt(a)
                } else {
                    copy_opt(b)
                }
            };
        DotNodeColors {
            color: pick_exec(&self.color, &base.color),
            fill: pick_exec(&self.fill, &base.fill),
            filled: self.filled || base.filled,
            penwidth: pick_exec(&self.penwidth, &base.penwidth),
            font_size: pick_exec(&self.font_size, &base.font_size),
            font_name: pick_exec(&self.font_name, &base.font_name),
        }
    }

    fn push_prop(props: &mut Vec<Vec<char>>, prefix: &str, v: &Option<Vec<char>>, suffix: &str)
        ensures
            final(props)@.map_values(|p: Vec<char>| p@) == old(props)@.map_values(
                |p: Vec<char>| p@,
            ) + opt_prop(prefix@, opt_view(*v), suffix@),
    {
        if let Some(x) = v {
            let mut p: Vec<char> = Vec::new();
            push_str(&mut p, prefix);
            push_window(&mut p, x, 0, x.len());
            push_str(&mut p, suffix);
            proof {
                assert(x@.subrange(0, x@.len() as int) =~= x@);
            }
            let ghost before = props@.map_values(|q: Vec<char>| q@);
            props.push(p);
            assert(props@.map_values(|q: Vec<char>| q@) =~= before.push(p@));
        } else {
            assert(old(props)@.map_values(|q: Vec<char>| q@) + opt_prop(prefix@, None, suffix@)
                =~= old(props)@.map_values(|q: Vec<char>| q@));
        }
    }

    fn push_shared(&self, props: &mut Vec<Vec<char>>)
        ensures
            final(props)@.map_values(|p: Vec<char>| p@) == old(props)@.map_values(
                |p: Vec<char>| p@,
            ) + shared_props(self.view_parts()),
    {
        let ghost p0 = props@.map_values(|q: Vec<char>| q@);
        Self::push_prop(props, "stroke-width:", &self.penwidth, "");
        Self::push_prop(props, "font-size:", &self.font_size, "pt");
        Self::push_prop(props, "font-family:", &self.font_name, "");
        proof {
            reveal_strlit("");
            assert(Seq::<char>::empty() =~= ""@);
        }
        assert(props@.map_values(|q: Vec<char>| q@) =~= p0 + shared_props(self.view_parts()));
    }

    /// The CSS a node maps to.
    pub fn to_css(&self) -> (r: Option<Vec<char>>)
        ensures
            opt_view(r) == css_of(node_props(self.view_parts())),
    {
        let mut props: Vec<Vec<char>> = Vec::new();
        assert(props@.map_values(|q: Vec<char>| q@) =~= Seq::<Seq<char>>::empty());
        proof {
            reveal_strlit("");
            assert(Seq::<char>::empty() =~= ""@);
        }
        if self.filled && self.fill.is_none() && self.color.is_some() {
            Self::push_prop(&mut props, "fill:", &self.color, "");
        } else {
            Self::push_prop(&mut props, "fill:", &self.fill, "");
            Self::push_prop(&mut props, "stroke:", &self.color, "");
        }
        self.push_shared(&mut props);
        join_props(&props)
    }

    /// The CSS an edge maps to.
    pub fn to_edge_css(&self) -> (r: Option<Vec<char>>)
        ensures
            opt_view(r) == css_of(edge_props(self.view_parts())),
    {
        let mut props: Vec<Vec<char>> = Vec::new();
        assert(props@.map_values(|q: Vec<char>| q@) =~= Seq::<Seq<char>>::empty());
        proof {
            reveal_strlit("");
            assert(Seq::<char>::empty() =~= ""@);
        }
        Self::push_prop(&mut props, "stroke:", &self.color, "");
        self.push_shared(&mut props);
        join_props(&props)
    }
}

fn join_props(props: &Vec<Vec<char>>) -> (r: Option<Vec<char>>)
    ensures
        opt_view(r) == css_of(props@.map_values(|p: Vec<char>| p@)),
{
    let ghost ps = props@.map_values(|p: Vec<char>| p@);
    if props.len() == 0 {
        return None;
    }
    let mut out: Vec<char> = Vec::new();
    let mut i: usize = 0;
    while i < props.len()
        invariant
            i <= props@.len(),
            ps == props@.map_values(|p: Vec<char>| p@),
            out@ == join_comma(ps.take(i as int)),
        decreases props@.len() - i,
    {
        let ghost before = out@;
        if i > 0 {
            out.push(',');
        }
        push_window(&mut out, &props[i], 0, props[i].len());
        proof {
            assert(props@[i as int]@.subrange(0, props@[i as int]@.len() as int) =~= props@[i as int]@);
            let t = ps.take(i + 1);
            assert(t.drop_last() =~= ps.take(i as int));
            assert(t.last() == ps[i as int]);
            if i == 0 {
                assert(join_comma(t) == t[0]);
                assert(out@ =~= join_comma(t));
            } else {
                assert(out@ =~= join_comma(t));
            }
        }
        i = i + 1;
    }
    assert(ps.take(props@.len() as int) =~= ps);
    Some(out)
}

} // verus!
