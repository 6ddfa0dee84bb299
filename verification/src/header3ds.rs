//! Chunk identifiers and chunk headers of the 3DS model format.
//!
//! A 3DS file is a tree of chunks. Each chunk starts with a six-byte header,
//! its identifier and its size including the header, followed by its own
//! data and by its child chunks.

use vstd::prelude::*;

verus! {

pub const CHUNK_MAIN: u16 = 0x4D4D;

pub const CHUNK_VERSION: u16 = 0x0002;

pub const CHUNK_PERCENT: u16 = 0x0030;

pub const CHUNK_OBJMESH: u16 = 0x3D3D;

pub const CHUNK_MESHVERSION: u16 = 0x3D3E;

pub const CHUNK_MASTERSCALE: u16 = 0x0100;

pub const CHUNK_OBJBLOCK: u16 = 0x4000;

pub const CHUNK_TRIMESH: u16 = 0x4100;

pub const CHUNK_VERTLIST: u16 = 0x4110;

pub const CHUNK_FACELIST: u16 = 0x4120;

pub const CHUNK_FACEMAT: u16 = 0x4130;

pub const CHUNK_MAPLIST: u16 = 0x4140;

pub const CHUNK_SMOOTHING: u16 = 0x4150;

pub const CHUNK_TRMATRIX: u16 = 0x4160;

pub const CHUNK_LIGHT: u16 = 0x4600;

pub const CHUNK_SPOTLIGHT: u16 = 0x4610;

pub const CHUNK_CAMERA: u16 = 0x4700;

pub const CHUNK_MATERIAL: u16 = 0xAFFF;

pub const CHUNK_MATNAME: u16 = 0xA000;

pub const CHUNK_AMBIENT: u16 = 0xA010;

pub const CHUNK_DIFFUSE: u16 = 0xA020;

pub const CHUNK_SPECULAR: u16 = 0xA030;

pub const CHUNK_SHININESS1: u16 = 0xA040;

pub const CHUNK_SHININESS2: u16 = 0xA041;

pub const CHUNK_TRANSPARENCY1: u16 = 0xA050;

pub const CHUNK_TRANSPARENCY2: u16 = 0xA052;

pub const CHUNK_REFLECTION: u16 = 0xA053;

pub const CHUNK_2_SIDED: u16 = 0xA081;

pub const CHUNK_SELF_ILLUM: u16 = 0xA084;

pub const CHUNK_WIRE_THICKN: u16 = 0xA087;

pub const CHUNK_IN_TRANC: u16 = 0xA08A;

pub const CHUNK_RENDER_TYPE: u16 = 0xA100;

pub const CHUNK_TEXTURE: u16 = 0xA200;

pub const CHUNK_REFLECT: u16 = 0xA220;

pub const CHUNK_BUMPMAP: u16 = 0xA230;

pub const CHUNK_MAPFILE: u16 = 0xA300;

pub const CHUNK_MAPPARAM: u16 = 0xA351;

pub const CHUNK_BLUR: u16 = 0xA353;

pub const CHUNK_MAPUSCALE: u16 = 0xA354;

pub const CHUNK_MAPVSCALE: u16 = 0xA356;

pub const CHUNK_MAPUOFFSET: u16 = 0xA358;

pub const CHUNK_MAPVOFFSET: u16 = 0xA35A;

pub const CHUNK_KEYFRAMER: u16 = 0xB000;

/// The size of a chunk header in bytes.
pub const HEADER_SIZE: u32 = 6;

/// Which texture-mapping parameter a map chunk carries.
#[derive(Clone, Copy, Debug, PartialEq, Eq, Structural)]
pub enum MapParam {
    UScale,
    VScale,
    UOffset,
    VOffset,
}

/// The symbolic name of a chunk identifier; `CHUNK_UNKNOWN` for an
/// identifier that has none.
pub open spec fn chunk_name(chunk_id: u16) -> Seq<char> {
    if chunk_id == 0x4D4D {
        "CHUNK_MAIN"@
    } else if chunk_id == 0x0002 {
        "CHUNK_VERSION"@
    } else if chunk_id == 0x0030 {
        "CHUNK_PERCENT"@
    } else if chunk_id == 0x3D3D {
        "CHUNK_OBJMESH"@
    } else if chunk_id == 0x3D3E {
        "CHUNK_MESHVERSION"@
    } else if chunk_id == 0x0100 {
        "CHUNK_MASTERSCALE"@
    } else if chunk_id == 0x4000 {
        "CHUNK_OBJBLOCK"@
    } else if chunk_id == 0x4100 {
        "CHUNK_TRIMESH"@
    } else if chunk_id == 0x4110 {
        "CHUNK_VERTLIST"@
    } else if chunk_id == 0x4120 {
        "CHUNK_FACELIST"@
    } else if chunk_id == 0x4130 {
        "CHUNK_FACEMAT"@
    } else if chunk_id == 0x4140 {
        "CHUNK_MAPLIST"@
    } else if chunk_id == 0x4150 {
        "CHUNK_SMOOTHING"@
    } else if chunk_id == 0x4160 {
        "CHUNK_TRMATRIX"@
    } else if chunk_id == 0x4600 {
        "CHUNK_LIGHT"@
    } else if chunk_id == 0x4610 {
        "CHUNK_SPOTLIGHT"@
    } else if chunk_id == 0x4700 {
        "CHUNK_CAMERA"@
    } else if chunk_id == 0xAFFF {
        "CHUNK_MATERIAL"@
    } else if chunk_id == 0xA000 {
        "CHUNK_MATNAME"@
    } else if chunk_id == 0xA010 {
        "CHUNK_AMBIENT"@
    } else if chunk_id == 0xA020 {
        "CHUNK_DIFFUSE"@
    } else if chunk_id == 0xA030 {
        "CHUNK_SPECULAR"@
    } else if chunk_id == 0xA040 {
        "CHUNK_SHININESS1"@
    } else if chunk_id == 0xA041 {
        "CHUNK_SHININESS2"@
    } else if chunk_id == 0xA050 {
        "CHUNK_TRANSPARENCY1"@
    } else if chunk_id == 0xA052 {
        "CHUNK_TRANSPARENCY2"@
    } else if chunk_id == 0xA053 {
        "CHUNK_REFLECTION"@
    } else if chunk_id == 0xA081 {
        "CHUNK_2_SIDED"@
    } else if chunk_id == 0xA084 {
        "CHUNK_SELF_ILLUM"@
    } else if chunk_id == 0xA087 {
        "CHUNK_WIRE_THICKN"@
    } else if chunk_id == 0xA08A {
        "CHUNK_IN_TRANC"@
    } else if chunk_id == 0xA100 {
        "CHUNK_RENDER_TYPE"@
    } else if chunk_id == 0xA200 {
        "CHUNK_TEXTURE"@
    } else if chunk_id == 0xA220 {
        "CHUNK_REFLECT"@
    } else if chunk_id == 0xA230 {
        "CHUNK_BUMPMAP"@
    } else if chunk_id == 0xA300 {
        "CHUNK_MAPFILE"@
    } else if chunk_id == 0xA351 {
        "CHUNK_MAPPARAM"@
    } else if chunk_id == 0xA353 {
        "CHUNK_BLUR"@
    } else if chunk_id == 0xA354 {
        "CHUNK_MAPUSCALE"@
    } else if chunk_id == 0xA356 {
        "CHUNK_MAPVSCALE"@
    } else if chunk_id == 0xA358 {
        "CHUNK_MAPUOFFSET"@
    } else if chunk_id == 0xA35A {
        "CHUNK_MAPVOFFSET"@
    } else if chunk_id == 0xB000 {
        "CHUNK_KEYFRAMER"@
    } else {
        "CHUNK_UNKNOWN"@
    }
}

/// The symbolic name of a chunk identifier, for messages.
pub fn chunk_id_to_str(chunk_id: u16) -> (name: String)
    ensures
        name@ == chunk_name(chunk_id),
{
    let name: &str = match chunk_id {
        0x4D4D => "CHUNK_MAIN",
        0x0002 => "CHUNK_VERSION",
        0x0030 => "CHUNK_PERCENT",
        0x3D3D => "CHUNK_OBJMESH",
        0x3D3E => "CHUNK_MESHVERSION",
        0x0100 => "CHUNK_MASTERSCALE",
        0x4000 => "CHUNK_OBJBLOCK",
        0x4100 => "CHUNK_TRIMESH",
        0x4110 => "CHUNK_VERTLIST",
        0x4120 => "CHUNK_FACELIST",
        0x4130 => "CHUNK_FACEMAT",
        0x4140 => "CHUNK_MAPLIST",
        0x4150 => "CHUNK_SMOOTHING",
        0x4160 => "CHUNK_TRMATRIX",
        0x4600 => "CHUNK_LIGHT",
        0x4610 => "CHUNK_SPOTLIGHT",
        0x4700 => "CHUNK_CAMERA",
        0xAFFF => "CHUNK_MATERIAL",
        0xA000 => "CHUNK_MATNAME",
        0xA010 => "CHUNK_AMBIENT",
        0xA020 => "CHUNK_DIFFUSE",
        0xA030 => "CHUNK_SPECULAR",
        0xA040 => "CHUNK_SHININESS1",
        0xA041 => "CHUNK_SHININESS2",
        0xA050 => "CHUNK_TRANSPARENCY1",
        0xA052 => "CHUNK_TRANSPARENCY2",
        0xA053 => "CHUNK_REFLECTION",
        0xA081 => "CHUNK_2_SIDED",
        0xA084 => "CHUNK_SELF_ILLUM",
        0xA087 => "CHUNK_WIRE_THICKN",
        0xA08A => "CHUNK_IN_TRANC",
        0xA100 => "CHUNK_RENDER_TYPE",
        0xA200 => "CHUNK_TEXTURE",
        0xA220 => "CHUNK_REFLECT",
        0xA230 => "CHUNK_BUMPMAP",
        0xA300 => "CHUNK_MAPFILE",
        0xA351 => "CHUNK_MAPPARAM",
        0xA353 => "CHUNK_BLUR",
        0xA354 => "CHUNK_MAPUSCALE",
        0xA356 => "CHUNK_MAPVSCALE",
        0xA358 => "CHUNK_MAPUOFFSET",
        0xA35A => "CHUNK_MAPVOFFSET",
        0xB000 => "CHUNK_KEYFRAMER",
        _ => "CHUNK_UNKNOWN",
    };
    name.to_string()
}

/// What a reader does with a chunk, by its identifier.
#[derive(Clone, Copy, Debug, PartialEq, Eq, Structural)]
pub enum ChunkAction {
    /// The chunk holds only child chunks.
    Children,
    /// An object: a name, then child chunks.
    ObjectBlock,
    /// A triangle mesh: child chunks that fill one mesh.
    TriMesh,
    /// The vertex positions of a mesh.
    VertexList,
    /// The triangles of a mesh, then child chunks.
    FaceList,
    /// The name of the material of a mesh's faces.
    FaceMaterial,
    /// The texture coordinates of a mesh's vertices.
    TexCoords,
    /// The name of a new material.
    MaterialName,
    /// The file name of a material's texture.
    TextureFile,
    /// One number that scales or shifts a texture.
    TextureMap(MapParam),
    /// Nothing in the chunk is used.
    Skip,
    /// The identifier is not one of the format.
    Unknown,
}

/// What a reader does with the chunk `id`.
pub open spec fn action_of(id: u16) -> ChunkAction {
    if id == CHUNK_MAIN || id == CHUNK_OBJMESH || id == CHUNK_MATERIAL || id == CHUNK_TEXTURE || id == CHUNK_REFLECT {
        ChunkAction::Children
    } else if id == CHUNK_OBJBLOCK {
        ChunkAction::ObjectBlock
    } else if id == CHUNK_TRIMESH {
        ChunkAction::TriMesh
    } else if id == CHUNK_VERTLIST {
        ChunkAction::VertexList
    } else if id == CHUNK_FACELIST {
        ChunkAction::FaceList
    } else if id == CHUNK_FACEMAT {
        ChunkAction::FaceMaterial
    } else if id == CHUNK_MAPLIST {
        ChunkAction::TexCoords
    } else if id == CHUNK_MATNAME {
        ChunkAction::MaterialName
    } else if id == CHUNK_MAPFILE {
        ChunkAction::TextureFile
    } else if id == CHUNK_MAPUSCALE {
        ChunkAction::TextureMap(MapParam::UScale)
    } else if id == CHUNK_MAPVSCALE {
        ChunkAction::TextureMap(MapParam::VScale)
    } else if id == CHUNK_MAPUOFFSET {
        ChunkAction::TextureMap(MapParam::UOffset)
    } else if id == CHUNK_MAPVOFFSET {
        ChunkAction::TextureMap(MapParam::VOffset)
    } else if id == CHUNK_VERSION || id == CHUNK_PERCENT || id == CHUNK_MESHVERSION || id == CHUNK_MASTERSCALE || id == CHUNK_SMOOTHING || id == CHUNK_TRMATRIX || id == CHUNK_LIGHT || id == CHUNK_SPOTLIGHT || id == CHUNK_CAMERA || id == CHUNK_AMBIENT || id == CHUNK_DIFFUSE || id == CHUNK_SPECULAR || id == CHUNK_SHININESS1 || id == CHUNK_SHININESS2 || id == CHUNK_TRANSPARENCY1 || id == CHUNK_TRANSPARENCY2 || id == CHUNK_REFLECTION || id == CHUNK_2_SIDED || id == CHUNK_SELF_ILLUM || id == CHUNK_WIRE_THICKN || id == CHUNK_IN_TRANC || id == CHUNK_RENDER_TYPE || id == CHUNK_BUMPMAP || id == CHUNK_MAPPARAM || id == CHUNK_BLUR || id == CHUNK_KEYFRAMER {
        ChunkAction::Skip
    } else {
        ChunkAction::Unknown
    }
}

/// Says what to do with the chunk `id`.
pub fn chunk_action(id: u16) -> (action: ChunkAction)
    ensures
        action == action_of(id),
{
    match id {
        CHUNK_MAIN | CHUNK_OBJMESH | CHUNK_MATERIAL | CHUNK_TEXTURE | CHUNK_REFLECT => ChunkAction::Children,
        CHUNK_OBJBLOCK => ChunkAction::ObjectBlock,
        CHUNK_TRIMESH => ChunkAction::TriMesh,
        CHUNK_VERTLIST => ChunkAction::VertexList,
        CHUNK_FACELIST => ChunkAction::FaceList,
        CHUNK_FACEMAT => ChunkAction::FaceMaterial,
        CHUNK_MAPLIST => ChunkAction::TexCoords,
        CHUNK_MATNAME => ChunkAction::MaterialName,
        CHUNK_MAPFILE => ChunkAction::TextureFile,
        CHUNK_MAPUSCALE => ChunkAction::TextureMap(MapParam::UScale),
        CHUNK_MAPVSCALE => ChunkAction::TextureMap(MapParam::VScale),
        CHUNK_MAPUOFFSET => ChunkAction::TextureMap(MapParam::UOffset),
        CHUNK_MAPVOFFSET => ChunkAction::TextureMap(MapParam::VOffset),
        CHUNK_VERSION | CHUNK_PERCENT | CHUNK_MESHVERSION | CHUNK_MASTERSCALE | CHUNK_SMOOTHING | CHUNK_TRMATRIX | CHUNK_LIGHT | CHUNK_SPOTLIGHT | CHUNK_CAMERA | CHUNK_AMBIENT | CHUNK_DIFFUSE | CHUNK_SPECULAR | CHUNK_SHININESS1 | CHUNK_SHININESS2 | CHUNK_TRANSPARENCY1 | CHUNK_TRANSPARENCY2 | CHUNK_REFLECTION | CHUNK_2_SIDED | CHUNK_SELF_ILLUM | CHUNK_WIRE_THICKN | CHUNK_IN_TRANC | CHUNK_RENDER_TYPE | CHUNK_BUMPMAP | CHUNK_MAPPARAM | CHUNK_BLUR | CHUNK_KEYFRAMER => ChunkAction::Skip,
        _ => ChunkAction::Unknown,
    }
}

/// What went wrong while a 3DS file was read.
#[derive(Clone, Copy, Debug, PartialEq, Eq, Structural)]
pub enum Error3ds {
    /// A chunk was closed while `left_bytes` of it were still unread.
    Unfinished { id: u16, left_bytes: u32 },
    /// `read_bytes` were taken from a chunk that had only `left_bytes` left.
    Overrun { id: u16, read_bytes: u32, left_bytes: u32 },
    /// A header gives its chunk a size smaller than the header itself.
    HeaderSize { id: u16, size: u32 },
    /// A name is not valid UTF-8.
    BadString,
}

/// The header of a chunk, and how much of the chunk is still unread.
#[derive(Clone, Copy, Debug, PartialEq, Eq, Structural)]
pub struct Header3ds {
    pub id: u16,
    pub size: u32,
    pub left_bytes: u32,
}

impl Header3ds {
    /// Closes the chunk: gives its size if it was read to the end.
    pub fn check_end(&self) -> (r: Result<u32, Error3ds>)
        ensures
            self.left_bytes == 0 ==> r == Ok::<u32, Error3ds>(self.size),
            self.left_bytes != 0 ==> r == Err::<u32, Error3ds>(
                Error3ds::Unfinished { id: self.id, left_bytes: self.left_bytes },
            ),
    {
        if self.left_bytes == 0 {
            Ok(self.size)
        } else {
            Err(Error3ds::Unfinished { id: self.id, left_bytes: self.left_bytes })
        }
    }

    /// Accounts for `read_bytes` taken from the chunk. Fails, and leaves the
    /// header as it is, if the chunk has fewer bytes left.
    pub fn update_left(&mut self, read_bytes: u32) -> (r: Result<(), Error3ds>)
        ensures
            old(self).left_bytes >= read_bytes ==> r is Ok && *final(self) == (Header3ds {
                left_bytes: (old(self).left_bytes - read_bytes) as u32,
                ..*old(self)
            }),
            old(self).left_bytes < read_bytes ==> *final(self) == *old(self) && r == Err::<
                (),
                Error3ds,
            >(
                Error3ds::Overrun {
                    id: old(self).id,
                    read_bytes,
                    left_bytes: old(self).left_bytes,
                },
            ),
    {
        if self.left_bytes < read_bytes {
            Err(Error3ds::Overrun { id: self.id, read_bytes, left_bytes: self.left_bytes })
        } else {
            self.left_bytes -= read_bytes;
            Ok(())
        }
    }
}

} // verus!
