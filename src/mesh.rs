//! The mesh walker: resolves each primitive's vertex indices and hands it to
//! the triangle fill, with its shading, or to the line drawer.
use crate::color::Color;
use crate::framebuffer::{FrameView, Framebuffer};
use crate::geometry::ScreenPoint;
use crate::line::line_drawn;
use crate::raster::{texture_view, triangle_drawn, Fill, TexCoord, Triangle};
use crate::shading::{
    face_intensity,
    face_normal,
    flat_level,
    flat_shade,
    intensity_of,
    normal_fits,
    normal_of,
    Intensity,
    Lighting,
    Vector3,
};
use crate::texture::{Texture, TextureView};
use vstd::prelude::*;

verus! {

/// A triangle corner: an index into the mesh's vertices and, optionally, one
/// into its texture coordinates.
#[derive(Clone, Copy, Debug, PartialEq, Eq, Structural)]
pub struct Corner {
    pub vertex: usize,
    pub tex: Option<usize>,
}

/// A primitive of a mesh, by vertex index.
#[derive(Clone, Copy, Debug, PartialEq, Eq, Structural)]
pub enum Primitive {
    Point(usize),
    Line(usize, usize),
    Triangle(Corner, Corner, Corner),
}

/// A mesh in screen space.
pub struct Mesh {
    pub vertices: Vec<ScreenPoint>,
    pub tex_coords: Vec<TexCoord>,
    pub primitives: Vec<Primitive>,
}

/// The settings of a render pass.
#[derive(Clone, Copy, Debug, PartialEq, Eq, Structural)]
pub struct RenderConfig {
    /// Direction towards the light; faces turned to it are lit.
    pub light: Vector3,
    /// What happens to flat-shaded faces turned away from the light.
    pub flat_lighting: Lighting,
    /// What happens to textured faces turned away from the light.
    pub textured_lighting: Lighting,
    /// The color of points and lines.
    pub line_color: Color,
}

impl RenderConfig {
    pub open spec fn wf(self) -> bool {
        self.light.is_light() && self.flat_lighting.wf() && self.textured_lighting.wf()
    }
}

pub open spec fn corner_wf(c: Corner, vertices: Seq<ScreenPoint>, tex_coords: Seq<TexCoord>) -> bool {
    &&& c.vertex < vertices.len()
    &&& c.tex matches Some(t) ==> t < tex_coords.len()
}

pub open spec fn primitive_wf(p: Primitive, vertices: Seq<ScreenPoint>, tex_coords: Seq<TexCoord>) -> bool {
    match p {
        Primitive::Point(i) => i < vertices.len(),
        Primitive::Line(i, j) => i < vertices.len() && j < vertices.len(),
        Primitive::Triangle(c0, c1, c2) => {
            &&& corner_wf(c0, vertices, tex_coords)
            &&& corner_wf(c1, vertices, tex_coords)
            &&& corner_wf(c2, vertices, tex_coords)
            &&& normal_fits(
                vertices[c0.vertex as int],
                vertices[c1.vertex as int],
                vertices[c2.vertex as int],
            )
        },
    }
}

impl Mesh {
    /// Every vertex and texture coordinate is in range, and every index is valid.
    pub open spec fn wf(&self) -> bool {
        &&& forall|i: int| 0 <= i < self.vertices@.len() ==> (#[trigger] self.vertices@[i]).wf()
        &&& forall|i: int| 0 <= i < self.tex_coords@.len() ==> (#[trigger] self.tex_coords@[i]).wf()
        &&& forall|i: int|
            0 <= i < self.primitives@.len() ==> primitive_wf(
                #[trigger] self.primitives@[i],
                self.vertices@,
                self.tex_coords@,
            )
    }
}

/// The pixel that screen point `p` falls on, when it is in the framebuffer.
pub open spec fn on_screen(f: FrameView, p: ScreenPoint) -> bool {
    f.contains(p.x as int, p.y as int)
}

/// The framebuffer `f` after a line between two vertices is drawn; a line
/// with an end outside the framebuffer is skipped.
pub open spec fn segment_drawn(f: FrameView, p: ScreenPoint, q: ScreenPoint, color: Color) -> FrameView {
    if on_screen(f, p) && on_screen(f, q) {
        line_drawn(f, p.x as int, p.y as int, q.x as int, q.y as int, color)
    } else {
        f
    }
}

/// A face is textured when every corner has texture coordinates and a texture
/// is bound.
pub open spec fn is_textured(c0: Corner, c1: Corner, c2: Corner, tex: Option<TextureView>) -> bool {
    c0.tex is Some && c1.tex is Some && c2.tex is Some && tex is Some
}

/// The lighting policy that applies to a face.
pub open spec fn face_lighting(
    c0: Corner,
    c1: Corner,
    c2: Corner,
    tex: Option<TextureView>,
    cfg: RenderConfig,
) -> Lighting {
    if is_textured(c0, c1, c2, tex) {
        cfg.textured_lighting
    } else {
        cfg.flat_lighting
    }
}

/// How a lit face is filled: from the texture when it is textured, else in the
/// flat gray of its intensity.
pub open spec fn face_fill(
    c0: Corner,
    c1: Corner,
    c2: Corner,
    tex_coords: Seq<TexCoord>,
    tex: Option<TextureView>,
    intensity: Intensity,
) -> Fill {
    if is_textured(c0, c1, c2, tex) {
        Fill::Textured {
            uv0: tex_coords[c0.tex.unwrap() as int],
            uv1: tex_coords[c1.tex.unwrap() as int],
            uv2: tex_coords[c2.tex.unwrap() as int],
            intensity,
        }
    } else {
        let s = flat_level(intensity);
        Fill::Flat(Color { r: s, g: s, b: s })
    }
}

/// The framebuffer `f` after primitive `p` is drawn.
pub open spec fn primitive_drawn(
    f: FrameView,
    p: Primitive,
    vertices: Seq<ScreenPoint>,
    tex_coords: Seq<TexCoord>,
    cfg: RenderConfig,
    tex: Option<TextureView>,
) -> FrameView {
    match p {
        Primitive::Point(i) => segment_drawn(f, vertices[i as int], vertices[i as int], cfg.line_color),
        Primitive::Line(i, j) => segment_drawn(
            f,
            vertices[i as int],
            vertices[j as int],
            cfg.line_color,
        ),
        Primitive::Triangle(c0, c1, c2) => {
            let (a, b, c) = (
                vertices[c0.vertex as int],
                vertices[c1.vertex as int],
                vertices[c2.vertex as int],
            );
            match intensity_of(normal_of(a, b, c), cfg.light, face_lighting(c0, c1, c2, tex, cfg)) {
                None => f,
                Some(i) => triangle_drawn(
                    f,
                    Triangle { a, b, c },
                    face_fill(c0, c1, c2, tex_coords, tex, i),
                    tex,
                ),
            }
        },
    }
}

/// The framebuffer `f` after the first `n` primitives are drawn, in order.
pub open spec fn primitives_drawn(
    f: FrameView,
    prims: Seq<Primitive>,
    vertices: Seq<ScreenPoint>,
    tex_coords: Seq<TexCoord>,
    cfg: RenderConfig,
    tex: Option<TextureView>,
    n: nat,
) -> FrameView
    decreases n,
{
    if n == 0 {
        f
    } else {
        primitive_drawn(
            primitives_drawn(f, prims, vertices, tex_coords, cfg, tex, (n - 1) as nat),
            prims[n - 1],
            vertices,
            tex_coords,
            cfg,
            tex,
        )
    }
}

/// Under culling, a triangle whose normal is not turned towards the light
/// writes no pixel.
pub proof fn lemma_back_face_culled(
    f: FrameView,
    c0: Corner,
    c1: Corner,
    c2: Corner,
    vertices: Seq<ScreenPoint>,
    tex_coords: Seq<TexCoord>,
    cfg: RenderConfig,
    tex: Option<TextureView>,
)
    requires
        face_lighting(c0, c1, c2, tex, cfg) == Lighting::Cull,
        normal_of(vertices[c0.vertex as int], vertices[c1.vertex as int], vertices[c2.vertex as int]).dot(
            cfg.light,
        ) <= 0,
    ensures
        primitive_drawn(f, Primitive::Triangle(c0, c1, c2), vertices, tex_coords, cfg, tex) == f,
{
}

impl Framebuffer {
    fn draw_segment(&mut self, p: ScreenPoint, q: ScreenPoint, color: Color)
        requires
            old(self).wf(),
        ensures
            final(self).wf(),
            final(self)@ == segment_drawn(old(self)@, p, q, color),
    {
        let w = self.width() as i64;
        let h = self.height() as i64;
        if 0 <= p.x && p.x < w && 0 <= p.y && p.y < h && 0 <= q.x && q.x < w && 0 <= q.y && q.y < h {
            self.draw_line(p.x as u32, p.y as u32, q.x as u32, q.y as u32, color);
        }
    }

    /// Draws primitive `p` of `mesh`.
    pub fn draw_primitive(&mut self, p: Primitive, mesh: &Mesh, cfg: &RenderConfig, tex: Option<&Texture>)
        requires
            old(self).wf(),
            mesh.wf(),
            primitive_wf(p, mesh.vertices@, mesh.tex_coords@),
            cfg.wf(),
            tex matches Some(t) ==> t.wf(),
        ensures
            final(self).wf(),
            final(self)@ == primitive_drawn(
                old(self)@,
                p,
                mesh.vertices@,
                mesh.tex_coords@,
                *cfg,
                texture_view(tex),
            ),
    {
        match p {
            Primitive::Point(i) => {
                let v = mesh.vertices[i];
                self.draw_segment(v, v, cfg.line_color);
            },
            Primitive::Line(i, j) => {
                let v = mesh.vertices[i];
                let u = mesh.vertices[j];
                self.draw_segment(v, u, cfg.line_color);
            },
            Primitive::Triangle(c0, c1, c2) => {
                let a = mesh.vertices[c0.vertex];
                let b = mesh.vertices[c1.vertex];
                let c = mesh.vertices[c2.vertex];
                let n = face_normal(a, b, c);
                let textured = c0.tex.is_some() && c1.tex.is_some() && c2.tex.is_some()
                    && tex.is_some();
                let lighting = if textured {
                    cfg.textured_lighting
                } else {
                    cfg.flat_lighting
                };
                match face_intensity(n, cfg.light, lighting) {
                    None => {},
                    Some(i) => {
                        let t = Triangle { a, b, c };
                        let fill = match (c0.tex, c1.tex, c2.tex, tex) {
                            (Some(t0), Some(t1), Some(t2), Some(_)) => Fill::Textured {
                                uv0: mesh.tex_coords[t0],
                                uv1: mesh.tex_coords[t1],
                                uv2: mesh.tex_coords[t2],
                                intensity: i,
                            },
                            _ => {
                                let s = flat_shade(i);
                                Fill::Flat(Color { r: s, g: s, b: s })
                            },
                        };
                        self.draw_triangle(&t, &fill, tex);
                    },
                }
            },
        }
    }

    /// Draws every primitive of `mesh`, in order.
    pub fn draw_mesh(&mut self, mesh: &Mesh, cfg: &RenderConfig, tex: Option<&Texture>)
        requires
            old(self).wf(),
            mesh.wf(),
            cfg.wf(),
            tex matches Some(t) ==> t.wf(),
        ensures
            final(self).wf(),
            final(self)@ == primitives_drawn(
                old(self)@,
                mesh.primitives@,
                mesh.vertices@,
                mesh.tex_coords@,
                *cfg,
                texture_view(tex),
                mesh.primitives@.len(),
            ),
    {
        let ghost before = self@;
        let mut k: usize = 0;
        while k < mesh.primitives.len()
            invariant
                self.wf(),
                mesh.wf(),
                cfg.wf(),
                tex matches Some(t) ==> t.wf(),
                k <= mesh.primitives@.len(),
                self@ == primitives_drawn(
                    before,
                    mesh.primitives@,
                    mesh.vertices@,
                    mesh.tex_coords@,
                    *cfg,
                    texture_view(tex),
                    k as nat,
                ),
            decreases mesh.primitives@.len() - k,
        {
            let p = mesh.primitives[k];
            self.draw_primitive(p, mesh, cfg, tex);
            k = k + 1;
        }
    }
}

} // verus!
