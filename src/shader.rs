use vstd::prelude::*;

verus! {

/// A linked GPU program.
#[derive(Clone, Copy, Debug, PartialEq, Eq, Structural)]
pub struct Shader {
    pub program_id: u32,
}

/// A program being assembled: its handle and the compiled stages attached so far.
pub struct ShaderBuilder {
    pub program_id: u32,
    pub shaders: Vec<u32>,
}

/// The pipeline stage that a shader source is for.
#[derive(Clone, Copy, Debug, PartialEq, Eq, Structural)]
pub enum ShaderType {
    Vertex,
    Fragment,
    TessellationControl,
    TessellationEvaluation,
    Geometry,
}

/// OpenGL's names for the stages.
pub const VERTEX_SHADER: u32 = 0x8B31;
pub const FRAGMENT_SHADER: u32 = 0x8B30;
pub const TESS_CONTROL_SHADER: u32 = 0x8E88;
pub const TESS_EVALUATION_SHADER: u32 = 0x8E87;
pub const GEOMETRY_SHADER: u32 = 0x8DD9;

pub open spec fn spec_gl_kind(t: ShaderType) -> u32 {
    match t {
        ShaderType::Vertex => VERTEX_SHADER,
        ShaderType::Fragment => FRAGMENT_SHADER,
        ShaderType::TessellationControl => TESS_CONTROL_SHADER,
        ShaderType::TessellationEvaluation => TESS_EVALUATION_SHADER,
        ShaderType::Geometry => GEOMETRY_SHADER,
    }
}

/// The stage that a file extension names, if any.
pub open spec fn stage_of_ext(ext: Seq<char>) -> Option<ShaderType> {
    if ext == "vert"@ {
        Some(ShaderType::Vertex)
    } else if ext == "frag"@ {
        Some(ShaderType::Fragment)
    } else if ext == "tcs"@ {
        Some(ShaderType::TessellationControl)
    } else if ext == "tes"@ {
        Some(ShaderType::TessellationEvaluation)
    } else if ext == "geom"@ {
        Some(ShaderType::Geometry)
    } else {
        None
    }
}

impl ShaderType {
    /// The OpenGL name of the stage.
    pub fn gl_kind(&self) -> (r: u32)
        ensures
            r == spec_gl_kind(*self),
    {
        match self {
            ShaderType::Vertex => VERTEX_SHADER,
            ShaderType::Fragment => FRAGMENT_SHADER,
            ShaderType::TessellationControl => TESS_CONTROL_SHADER,
            ShaderType::TessellationEvaluation => TESS_EVALUATION_SHADER,
            ShaderType::Geometry => GEOMETRY_SHADER,
        }
    }

    /// The stage of a source file by its extension; an unknown extension is
    /// returned as the error.
    pub fn from_ext(ext: &str) -> (r: Result<ShaderType, String>)
        ensures
            match stage_of_ext(ext@) {
                Some(t) => r == Ok::<ShaderType, String>(t),
                None => r.is_err() && r->Err_0@ == ext@,
            },
    {
        let e: String = ext.to_owned();
        let vert: String = "vert".to_owned();
        let frag: String = "frag".to_owned();
        let tcs: String = "tcs".to_owned();
        let tes: String = "tes".to_owned();
        let geom: String = "geom".to_owned();
        if e == vert {
            Ok(ShaderType::Vertex)
        } else if e == frag {
            Ok(ShaderType::Fragment)
        } else if e == tcs {
            Ok(ShaderType::TessellationControl)
        } else if e == tes {
            Ok(ShaderType::TessellationEvaluation)
        } else if e == geom {
            Ok(ShaderType::Geometry)
        } else {
            Err(e)
        }
    }
}

impl ShaderBuilder {
    /// A builder for the program with handle `program_id`, no stage attached.
    pub fn new(program_id: u32) -> (r: ShaderBuilder)
        ensures
            r.program_id == program_id,
            r.shaders@ == Seq::<u32>::empty(),
    {
        ShaderBuilder { program_id, shaders: Vec::new() }
    }

    /// Attaches a compiled stage.
    pub fn attach(self, shader: u32) -> (r: ShaderBuilder)
        ensures
            r.program_id == self.program_id,
            r.shaders@ == self.shaders@.push(shader),
    {
        let mut s = self;
        s.shaders.push(shader);
        s
    }

    /// The program, once linked.
    pub fn finish(&self) -> (r: Shader)
        ensures
            r.program_id == self.program_id,
    {
        Shader { program_id: self.program_id }
    }
}

} // verus!
