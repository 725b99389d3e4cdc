//! A software pixel engine with a 3D rendering pipeline.
//!
//! The engine draws into sprites: pixels, lines, circles, rectangles,
//! triangles, sprites and text in two dimensions, and textured triangle
//! meshes in three. A mesh is transformed, culled, clipped, projected and
//! filled with perspective-correct texturing and a depth test, all on the
//! CPU.
//!
//! All arithmetic is on integers. Numbers with a fraction are fixed-point
//! numbers of 32 binary places whose operations saturate, so no operation
//! can fail; what reaches the screen is whole pixels, and the rasteriser
//! decides coverage and depth exactly.
//!
//! # What is proved
//!
//! Every function states what it returns or changes, over mathematical
//! models of the data: an [`sprite::Image`] for a sprite, a [`pge::Canvas`]
//! for the drawing surface, a [`gfx3d::pipeline::PipelineView`] for the
//! pipeline. Beyond that these laws hold:
//!
//! - Scaling a vector to length one gives length one, up to four steps of
//!   the grid, for every vector that has a length
//!   ([`gfx3d::vec4d::lemma_norm_length`], [`length::lemma_direction_length`]).
//! - Clipping a triangle at a plane leaves at most two triangles, and a
//!   corner exactly on the plane counts as inside
//!   ([`gfx3d::triangle::lemma_clipped`],
//!   [`gfx3d::triangle::lemma_on_plane_is_inside`]).
//! - A triangle with no corner outside a plane comes back whole, and one
//!   with every corner outside leaves nothing
//!   ([`gfx3d::triangle::lemma_whole_or_nothing`]); every corner that
//!   clipping gives out is a corner that was inside, or lies on an edge
//!   that crosses the plane ([`gfx3d::triangle::lemma_corners`]), and lies
//!   in the box about the triangle ([`gfx3d::triangle::lemma_pieces_in_box`]).
//! - A plane cuts an edge between the edge's ends
//!   ([`gfx3d::plane::lemma_cut_share`]), at a point in the box between
//!   them ([`gfx3d::plane::lemma_cut_in_box`]) that lies on the edge up to
//!   one step of the grid ([`gfx3d::cut::lemma_cut_on_edge`]) and on the
//!   plane up to six ([`gfx3d::cut::lemma_cut_distance`]).
//! - Clipping at a plane across an axis, wherever it stands, leaves nothing
//!   beyond the plane ([`gfx3d::triangle::lemma_axis_clip`]).
//! - Clipping does not add to a triangle's area, up to rounding: along
//!   each axis the pieces' shadows have together no more area than the
//!   triangle's, and a strip eight steps wide along its extent
//!   ([`gfx3d::area::lemma_clip_area`]).
//! - Clipping at a plane in any direction leaves nothing on the outer side
//!   of the plane by six steps of the grid or more
//!   ([`gfx3d::cut::lemma_clip_distance`]).
//! - Nothing that clipping to the view leaves lies outside the view
//!   ([`gfx3d::stages::lemma_clip_to_view`]), and every corner that is
//!   handed to the rasteriser lies within the viewport
//!   ([`gfx3d::stages::lemma_screen_within`]), so that rendering writes
//!   nothing outside the viewport
//!   ([`gfx3d::pipeline::lemma_render_within_viewport`]).
//! - Nothing that clipping at the near plane leaves is nearer than the plane
//!   ([`gfx3d::triangle::lemma_near_clip`]), and rendering writes no depth
//!   beyond that of the near plane
//!   ([`gfx3d::pipeline::lemma_render_near_plane`]).
//! - The projection hands a position's depth on as its weight
//!   ([`gfx3d::mat4x4::lemma_projection_weight`]), and a farther corner
//!   gets no larger a depth attribute than a nearer one
//!   ([`gfx3d::stages::lemma_depth_order`]). The depth is recovered from
//!   what the projection leaves of it, from above and up to a stated share
//!   ([`gfx3d::stages::lemma_projected_depth_recovers`]).
//! - The projected depth of a position between the planes is `q * (1 -
//!   near / z)` with `q = far / (far - near)`, up to a stated few steps of
//!   the grid ([`gfx3d::projected::lemma_projected_depth`]).
//! - The forward and the up direction of a camera's placement have length
//!   one, up to four steps of the grid
//!   ([`gfx3d::mat4x4::lemma_point_at_rows`]). Its right direction stands
//!   at right angles to both up to six steps, as every cross product of
//!   directions does ([`gfx3d::angles::lemma_point_at_right_angles`],
//!   [`gfx3d::angles::lemma_cross_right_angles`]), and up to forward up to
//!   a stated bound ([`gfx3d::angles::lemma_point_at_up_forward`]).
//! - The inverse of a move is the move back, exactly
//!   ([`gfx3d::mat4x4::lemma_translation_inverse`]); for a camera that
//!   looks straight along `z` the view transform undoes the placement
//!   exactly ([`gfx3d::mat4x4::lemma_view_undoes_placement`]).
//! - Of two triangles that share an edge exactly one owns a pixel on it: no
//!   seam and no pixel drawn twice ([`gfx3d::coverage::lemma_shared_edge`]);
//!   and which pixels a triangle covers does not depend on the order of its
//!   corners ([`gfx3d::coverage::lemma_covers_any_order`]).
//! - A covered pixel lies in the box about the triangle's corners
//!   ([`gfx3d::coverage::lemma_owns_in_box`]), and its depth between the
//!   depths of the corners ([`gfx3d::pipeline::lemma_depth_at_bounds`]).
//! - With the depth test the order of two opaque triangles is immaterial
//!   ([`gfx3d::pipeline::lemma_render_order`]), also for two triangles of a
//!   mesh that clipping splits ([`gfx3d::pipeline::lemma_mesh_order`]), and
//!   the nearer one stays visible ([`gfx3d::pipeline::lemma_nearer_wins`],
//!   [`gfx3d::pipeline::lemma_lone_triangle_shows`]), as does the nearest
//!   of any number ([`gfx3d::pipeline::lemma_nearest_shows`]); depths only
//!   grow, and a pixel that no triangle covers keeps depth and colour
//!   ([`gfx3d::pipeline::lemma_depths_grow`],
//!   [`gfx3d::pipeline::lemma_uncovered_keeps_colour`]).
//! - What a triangle shows does not depend on the order of its corners
//!   ([`gfx3d::pipeline::lemma_shows_any_order`]); one without area draws
//!   nothing ([`gfx3d::pipeline::lemma_without_area`]); and a pixel at which
//!   no triangle is nearer than what the buffer holds keeps colour and depth
//!   ([`gfx3d::pipeline::lemma_not_nearer_keeps`]).
//! - A rectangle filled as two triangles covers exactly its pixels, each
//!   once ([`gfx3d::quad::lemma_rectangle_covers`]), and its attributes run
//!   along its sides ([`gfx3d::quad::lemma_rectangle_attributes`]). With the
//!   texture coordinates zero and one at its corners it shows the texture
//!   scaled to its size, texel for pixel where the sizes agree
//!   ([`gfx3d::quad::lemma_corner_coordinates`]), along whichever diagonal
//!   it is split and in whatever order and winding its halves are filled,
//!   and nothing outside it changes
//!   ([`gfx3d::quad::lemma_rectangle_rendered`],
//!   [`gfx3d::quad::lemma_quad_scene`]); the coordinates zero and one
//!   reach the rasteriser unrounded
//!   ([`gfx3d::stages::lemma_whole_coordinates`]). The same holds of
//!   coordinates on the centres of the texels
//!   ([`gfx3d::quad::lemma_centred_coordinates`]).
//! - A line starts and ends at its end points and stays in the box between
//!   them ([`pge::shapes::lemma_line_points`]).

pub mod arith;
pub mod color;
pub mod decal;
pub mod fixed;
pub mod gfx2d;
pub mod gfx3d;
pub mod length;
pub mod pge;
pub mod pixel;
pub mod sprite;
