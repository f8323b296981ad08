//! Texture ids and the errors of the UI renderer.

use vstd::prelude::*;

verus! {

/// Maps UI texture ids to OpenGL textures.
///
/// `register` is called after a texture was uploaded to OpenGL, to get
/// the UI texture id that stands for it. `gl_texture` finds the OpenGL
/// texture that a UI texture id stands for.
pub trait TextureMap {
    /// The UI texture id for an OpenGL texture, if one can be had.
    fn register(&mut self, gl_texture: u32) -> Option<usize>;

    /// The OpenGL texture that a UI texture id stands for, if it stands for one.
    fn gl_texture(&self, imgui_texture: usize) -> Option<u32>;
}

/// Texture map where the UI texture id is simply numerically equal to the
/// OpenGL texture id.
#[derive(Default)]
pub struct SimpleTextureMap();

impl TextureMap for SimpleTextureMap {
    /// The id is the number of the texture.
    fn register(&mut self, gl_texture: u32) -> (id: Option<usize>)
        ensures
            id == Some(gl_texture as usize),
    {
        Some(gl_texture as usize)
    }

    /// The texture is the low 32 bits of the id: the texture that the id
    /// was registered for, where it was registered here.
    fn gl_texture(&self, imgui_texture: usize) -> (texture: Option<u32>)
        ensures
            texture == Some(imgui_texture as u32),
            imgui_texture <= u32::MAX ==> texture == Some(imgui_texture as u32) && texture->0
                == imgui_texture,
    {
        Some(#[verifier::truncate] (imgui_texture as u32))
    }
}

/// The texture map of the UI library, `imgui::Textures`: nothing is
/// known of what is inside one but what the functions below say.
#[verifier::external_type_specification]
#[verifier::external_body]
#[verifier::reject_recursive_types(T)]
pub struct ExTextures<T>(imgui::Textures<T>);

/// The textures that an `imgui::Textures` holds, by the number of their id.
pub uninterp spec fn textures_held(textures: imgui::Textures<u32>) -> Map<usize, u32>;

/// The number of the id that an `imgui::Textures` gives out next.
pub uninterp spec fn textures_next(textures: imgui::Textures<u32>) -> usize;

/// `imgui::Textures::new`: a map that holds nothing, and gives out the
/// id with the number zero first.
#[verifier::external_body]
fn textures_new() -> (made: imgui::Textures<u32>)
    ensures
        forall|id: usize| !textures_held(made).contains_key(id),
        textures_next(made) == 0,
{
    imgui::Textures::new()
}

/// `imgui::Textures::insert`, with the id that it returns turned into its
/// number by `imgui::TextureId::id`: the texture is held under the next
/// number, which is returned, and the number after it is next. The
/// function adds one to the next number, so that must not be the largest.
#[verifier::external_body]
fn textures_insert(textures: &mut imgui::Textures<u32>, texture: u32) -> (id: usize)
    requires
        textures_next(*old(textures)) < usize::MAX,
    ensures
        id == textures_next(*old(textures)),
        textures_next(*final(textures)) == textures_next(*old(textures)) + 1,
        textures_held(*final(textures)) == textures_held(*old(textures)).insert(
            textures_next(*old(textures)),
            texture,
        ),
{
    textures.insert(texture).id()
}

/// `imgui::Textures::get`, for the id that `imgui::TextureId::new` makes
/// of the number: the texture that is held under the number, if one is.
#[verifier::external_body]
fn textures_get(textures: &imgui::Textures<u32>, id: usize) -> (texture: Option<u32>)
    ensures
        texture == if textures_held(*textures).contains_key(id) {
            Some(textures_held(*textures)[id])
        } else {
            None::<u32>
        },
{
    textures.get(imgui::TextureId::new(id)).copied()
}

/// A texture map that gives out ids in order, from zero on.
pub struct TextureTable {
    textures: imgui::Textures<u32>,
    count: usize,
}

impl View for TextureTable {
    type V = Map<usize, u32>;

    closed spec fn view(&self) -> Map<usize, u32> {
        textures_held(self.textures)
    }
}

impl TextureTable {
    /// The number of ids that the table has given out.
    pub closed spec fn count_spec(&self) -> nat {
        self.count as nat
    }

    /// Whether the table holds a texture under each id that it gave out,
    /// and under no other.
    pub closed spec fn wf(&self) -> bool {
        &&& textures_next(self.textures) == self.count
        &&& forall|id: usize| #[trigger] self@.contains_key(id) <==> id < self.count
    }

    /// A table that holds nothing.
    pub fn new() -> (table: Self)
        ensures
            table.wf(),
            table.count_spec() == 0,
            table@ == Map::<usize, u32>::empty(),
    {
        let table = TextureTable { textures: textures_new(), count: 0 };
        assert(table@ =~= Map::<usize, u32>::empty());
        table
    }

    /// Takes an OpenGL texture and gives out the id for it: the number of
    /// ids given out before. No id is left once every number is given out.
    pub fn register(&mut self, gl_texture: u32) -> (id: Option<usize>)
        requires
            old(self).wf(),
        ensures
            final(self).wf(),
            old(self).count_spec() < usize::MAX ==> id == Some(old(self).count_spec() as usize)
                && final(self)@ == old(self)@.insert(old(self).count_spec() as usize, gl_texture)
                && final(self).count_spec() == old(self).count_spec() + 1,
            old(self).count_spec() >= usize::MAX ==> id is None && final(self)@ == old(self)@
                && final(self).count_spec() == old(self).count_spec(),
    {
        if self.count == usize::MAX {
            return None;
        }
        let id = textures_insert(&mut self.textures, gl_texture);
        self.count += 1;
        proof {
            assert forall|other: usize| #[trigger]
                self@.contains_key(other) <==> other < self.count by {
                assert(old(self)@.contains_key(other) <==> other < old(self).count);
            }
        }
        Some(id)
    }

    /// The OpenGL texture that the id was given out for, if it was given out.
    pub fn gl_texture(&self, imgui_texture: usize) -> (texture: Option<u32>)
        requires
            self.wf(),
        ensures
            texture == if imgui_texture < self.count_spec() {
                Some(self@[imgui_texture])
            } else {
                None::<u32>
            },
    {
        proof {
            assert(self@.contains_key(imgui_texture) <==> imgui_texture < self.count);
        }
        textures_get(&self.textures, imgui_texture)
    }

    /// The number of ids that the table has given out.
    pub fn len(&self) -> (count: usize)
        ensures
            count == self.count_spec(),
    {
        self.count
    }
}

/// Why the shaders of the UI renderer could not be set up.
#[derive(Debug)]
pub enum ShaderError {
    /// The shader is not compatible with the OpenGL version of the context.
    IncompatibleVersion(String),
    /// The shader object could not be created.
    CreateShader(String),
    /// The program object could not be created.
    CreateProgram(String),
    /// The shader did not compile.
    CompileShader(String),
    /// The program did not link.
    LinkProgram(String),
    /// The program has no uniform of this name.
    UniformNotFound(String),
    /// The program has no attribute of this name.
    AttributeNotFound(String),
}

/// Why the UI renderer could not be set up.
#[derive(Debug)]
pub enum InitError {
    /// The shaders could not be set up.
    Shader(ShaderError),
    /// A buffer object could not be created.
    CreateBufferObject(String),
    /// A texture could not be created.
    CreateTexture(String),
    /// A texture could not be registered with the texture map.
    RegisterTexture,
    /// An error of the user of the renderer.
    UserError(String),
}

} // verus!
