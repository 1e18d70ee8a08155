use vstd::prelude::*;

verus! {

/// The shader programs the picker draws with: two picker planes, four
/// sliders and the final preview.
#[derive(Clone, Copy, Debug, PartialEq, Eq, Hash, Structural)]
pub enum ProgramKind {
    Picker(u8),
    Slider(u8),
    Final,
}

pub open spec fn all_program_kinds() -> Seq<ProgramKind> {
    seq![
        ProgramKind::Picker(0),
        ProgramKind::Picker(1),
        ProgramKind::Slider(0),
        ProgramKind::Slider(1),
        ProgramKind::Slider(2),
        ProgramKind::Slider(3),
        ProgramKind::Final,
    ]
}

impl ProgramKind {
    /// Every program the picker needs, pickers first, then sliders, then the preview.
    pub fn iter_all() -> (r: Vec<ProgramKind>)
        ensures
            r@ == all_program_kinds(),
    {
        let mut r: Vec<ProgramKind> = Vec::new();
        let mut i: u8 = 0;
        while i <= 1
            invariant
                i <= 2,
                r@ =~= all_program_kinds().take(i as int),
            decreases 2 - i,
        {
            r.push(ProgramKind::Picker(i));
            i = i + 1;
        }
        let mut j: u8 = 0;
        while j <= 3
            invariant
                j <= 4,
                r@ =~= all_program_kinds().take(2 + j),
            decreases 4 - j,
        {
            r.push(ProgramKind::Slider(j));
            j = j + 1;
        }
        r.push(ProgramKind::Final);
        assert(r@ =~= all_program_kinds());
        r
    }
}

/// The render passes of the GPU back end, one per drawn element.
#[derive(Clone, Copy, Debug, PartialEq, Eq, Hash, Structural)]
pub enum RenderKind {
    Picker1,
    Picker2,
    Slider1,
    Slider2,
    Slider3,
    Slider4,
    Final,
}

pub open spec fn all_render_kinds() -> Seq<RenderKind> {
    seq![
        RenderKind::Picker1,
        RenderKind::Picker2,
        RenderKind::Slider1,
        RenderKind::Slider2,
        RenderKind::Slider3,
        RenderKind::Slider4,
        RenderKind::Final,
    ]
}

impl RenderKind {
    /// Every render pass, in declaration order.
    pub fn all() -> (r: Vec<RenderKind>)
        ensures
            r@ == all_render_kinds(),
    {
        let r = vec![
            RenderKind::Picker1,
            RenderKind::Picker2,
            RenderKind::Slider1,
            RenderKind::Slider2,
            RenderKind::Slider3,
            RenderKind::Slider4,
            RenderKind::Final,
        ];
        assert(r@ =~= all_render_kinds());
        r
    }
}

/// The GLSL version line that starts each shader: GLSL ES 3.00 on the web,
/// desktop GLSL 3.30 elsewhere.
pub fn shader_version(web: bool) -> (r: &'static str)
    ensures
        web ==> r@ == "#version 300 es\n"@,
        !web ==> r@ == "#version 330\n"@,
{
    if web {
        "#version 300 es\n"
    } else {
        "#version 330\n"
    }
}

} // verus!
