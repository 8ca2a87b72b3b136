//! MagicaVoxel `.vox` files: a header, then a tree of chunks, each with a four-letter
//! tag, its content bytes and its children.
use vstd::prelude::*;
use vstd::utf8::{valid_utf8, decode_utf8};
use crate::text::{text_eq, string_from_utf8};
use crate::vox_format::{
    le_u32_at, be_u32_at, ChunkParse, ChildrenParse, FileParse, parse_chunk, parse_children, parse_vox,
    counted_size, vox_magic, main_tag, lemma_parse_chunk_advances, size_tag, xyzi_tag, rgba_tag, pack_tag,
};
use crate::vec3::UVec3;

verus! {

#[derive(Debug, Clone, Copy, PartialEq, Eq, Structural)]
pub enum LoadVoxError {
    CouldNotOpenFile,
    CouldNotReadFile,
    InvalidFileHeader,
    InvalidChunkName,
    NoMainChunk,
}

#[derive(Debug, Clone, Copy, PartialEq, Eq, Structural)]
pub enum TransformChunkError {
    WrongTagName,
    UnexpectedChildren,
    UnexpectedContentSize,
}

pub struct VoxFile {
    version_number: u32,
    main_chunk: VoxChunk,
}

pub struct VoxChunk {
    tag_name: String,
    content: Vec<u8>,
    children: Vec<VoxChunk>,
}

pub struct SizeChunk {
    tag_name: String,
    x_size: u32,
    y_size: u32,
    z_size: u32,
}

pub struct XYZIChunk {
    tag_name: String,
    voxels: Vec<XYZIVoxel>,
}

pub struct RGBAChunk {
    rgba_palette: [u32; 256],
}

pub struct PackChunk {
    number_of_models: u32,
}

#[derive(Clone, Copy, Debug, PartialEq, Eq, Structural)]
pub struct XYZIVoxel {
    pub x: u8,
    pub y: u8,
    pub z: u8,
    pub i: u8,
}

/// A chunk as a mathematical value: its tag, its content and its children.
pub struct ChunkModel {
    pub tag: Seq<char>,
    pub content: Seq<u8>,
    pub children: Seq<ChunkModel>,
}

impl VoxFile {
    /// The main chunk of a file is tagged `MAIN`.
    #[verifier::type_invariant]
    closed spec fn main_is_main(self) -> bool {
        self.main_chunk.tag() == main_tag()
    }

    pub closed spec fn version_spec(self) -> u32 {
        self.version_number
    }

    pub closed spec fn main_chunk_spec(self) -> VoxChunk {
        self.main_chunk
    }

    pub fn version(&self) -> (r: u32)
        ensures
            r == self.version_spec(),
    {
        self.version_number
    }

    pub fn main_chunk(&self) -> (r: &VoxChunk)
        ensures
            *r == self.main_chunk_spec(),
            r.tag() == main_tag(),
    {
        proof {
            use_type_invariant(self);
        }
        &self.main_chunk
    }
}

impl VoxChunk {
    pub closed spec fn tag(self) -> Seq<char> {
        self.tag_name@
    }

    pub closed spec fn content_spec(self) -> Seq<u8> {
        self.content@
    }

    pub closed spec fn children_spec(self) -> Seq<VoxChunk> {
        self.children@
    }

    /// The chunk holds exactly what the model says, down to its last descendant.
    pub closed spec fn matches_model(self, m: ChunkModel) -> bool {
        self.matches_rec(m)
    }

    spec fn matches_rec(self, m: ChunkModel) -> bool
        decreases self, self.children@.len() + 1,
    {
        &&& self.tag_name@ == m.tag
        &&& self.content@ == m.content
        &&& self.children@.len() == m.children.len()
        &&& self.children_match(m.children, self.children@.len())
    }

    /// The first `n` children match the first `n` models.
    closed spec fn children_match(self, ms: Seq<ChunkModel>, n: nat) -> bool
        decreases self, n,
    {
        if n == 0 || n > self.children@.len() {
            n == 0
        } else {
            self.children_match(ms, (n - 1) as nat) && self.children@[n - 1].matches_rec(ms[n - 1])
        }
    }

    proof fn lemma_children_match(self, ms: Seq<ChunkModel>, n: nat)
        requires
            n <= self.children@.len(),
        ensures
            self.children_match(ms, n) <==> forall|i: int| 0 <= i < n ==> #[trigger] self.children@[i].matches_rec(ms[i]),
        decreases n,
    {
        if n > 0 {
            self.lemma_children_match(ms, (n - 1) as nat);
            assert(self.children_match(ms, n) == (self.children_match(ms, (n - 1) as nat) && self.children@[n - 1].matches_rec(ms[n - 1])));
        }
    }

    pub proof fn lemma_matches_model(self, m: ChunkModel)
        ensures
            self.matches_model(m) <==> {
                &&& self.tag() == m.tag
                &&& self.content_spec() == m.content
                &&& self.children_spec().len() == m.children.len()
                &&& forall|i: int| 0 <= i < self.children_spec().len() ==> #[trigger] self.children_spec()[i].matches_model(m.children[i])
            },
    {
        self.lemma_children_match(m.children, self.children@.len());
        assert(self.matches_rec(m) == (self.tag_name@ == m.tag && self.content@ == m.content
            && self.children@.len() == m.children.len() && self.children_match(m.children, self.children@.len())));
        let rhs = {
            &&& self.tag() == m.tag
            &&& self.content_spec() == m.content
            &&& self.children_spec().len() == m.children.len()
            &&& forall|i: int| 0 <= i < self.children_spec().len() ==> #[trigger] self.children_spec()[i].matches_model(m.children[i])
        };
        if self.matches_model(m) {
            assert forall|i: int| 0 <= i < self.children_spec().len() implies #[trigger] self.children_spec()[i].matches_model(m.children[i]) by {
                assert(self.children@[i].matches_rec(m.children[i]));
            }
            assert(rhs);
        }
        if rhs {
            assert forall|i: int| 0 <= i < self.children@.len() implies #[trigger] self.children@[i].matches_rec(m.children[i]) by {
                assert(self.children_spec()[i].matches_model(m.children[i]));
            }
            assert(self.matches_rec(m));
        }
    }

    pub fn name(&self) -> (r: &str)
        ensures
            r@ == self.tag(),
    {
        self.tag_name.as_str()
    }

    pub fn content(&self) -> (r: &[u8])
        ensures
            r@ == self.content_spec(),
    {
        self.content.as_slice()
    }

    pub fn children(&self) -> (r: &Vec<VoxChunk>)
        ensures
            r@ == self.children_spec(),
    {
        &self.children
    }
}

/// Why reading stopped: an error that the reader reports, or a chunk whose
/// children overrun the size that it gives them.
enum ReadFailure {
    Error(LoadVoxError),
    SizeUnderflow,
}

spec fn chunk_read_matches(r: Result<(VoxChunk, usize), ReadFailure>, o: ChunkParse) -> bool {
    match o {
        ChunkParse::Parsed(m, next) => r matches Ok((c, n)) && c.matches_model(m) && n == next,
        ChunkParse::Failed(e) => r matches Err(ReadFailure::Error(e2)) && e2 == e,
        ChunkParse::Underflow => r matches Err(ReadFailure::SizeUnderflow),
    }
}

spec fn chunk_of_children(tag: Seq<char>, content: Seq<u8>, o: ChildrenParse) -> ChunkParse {
    match o {
        ChildrenParse::Parsed(children, next) => ChunkParse::Parsed(ChunkModel { tag, content, children }, next),
        ChildrenParse::Failed(e) => ChunkParse::Failed(e),
        ChildrenParse::Underflow => ChunkParse::Underflow,
    }
}

spec fn prepend_children(ms: Seq<ChunkModel>, o: ChildrenParse) -> ChildrenParse {
    match o {
        ChildrenParse::Parsed(rest, end) => ChildrenParse::Parsed(ms + rest, end),
        ChildrenParse::Failed(e) => ChildrenParse::Failed(e),
        ChildrenParse::Underflow => ChildrenParse::Underflow,
    }
}

/// The little-endian 32-bit number at `p`.
fn read_u32_le(b: &[u8], p: usize) -> (r: u32)
    requires
        p + 4 <= b@.len(),
    ensures
        r == le_u32_at(b@, p as int),
{
    (b[p] as u32) + (b[p + 1] as u32) * 0x100 + (b[p + 2] as u32) * 0x1_0000 + (b[p + 3] as u32) * 0x100_0000
}

/// Reads the chunk at `pos` with all its descendants.
fn read_chunk(bytes: &[u8], pos: usize) -> (r: Result<(VoxChunk, usize), ReadFailure>)
    ensures
        chunk_read_matches(r, parse_chunk(bytes@, pos as int)),
    decreases bytes@.len() - pos,
{
    let len = bytes.len();
    if len < 4 || pos > len - 4 {
        return Err(ReadFailure::Error(LoadVoxError::CouldNotReadFile));
    }
    let mut tag_bytes: Vec<u8> = Vec::new();
    let mut k: usize = 0;
    while k < 4
        invariant
            k <= 4,
            pos + 4 <= len,
            len == bytes@.len(),
            tag_bytes@ == bytes@.subrange(pos as int, pos + k),
        decreases 4 - k,
    {
        tag_bytes.push(bytes[pos + k]);
        k = k + 1;
        assert(tag_bytes@ =~= bytes@.subrange(pos as int, pos + k));
    }
    let tag_name = match string_from_utf8(tag_bytes) {
        Some(t) => t,
        None => {
            return Err(ReadFailure::Error(LoadVoxError::InvalidChunkName));
        },
    };
    if len < 12 || pos > len - 12 {
        return Err(ReadFailure::Error(LoadVoxError::CouldNotReadFile));
    }
    let content_size = read_u32_le(bytes, pos + 4);
    let children_size = read_u32_le(bytes, pos + 8);
    let start = pos + 12;
    if content_size as usize > len - start {
        return Err(ReadFailure::Error(LoadVoxError::CouldNotReadFile));
    }
    let end = start + content_size as usize;
    let mut content: Vec<u8> = Vec::new();
    let mut k: usize = start;
    while k < end
        invariant
            start <= k <= end <= len,
            len == bytes@.len(),
            content@ == bytes@.subrange(start as int, k as int),
        decreases end - k,
    {
        content.push(bytes[k]);
        k = k + 1;
        assert(content@ =~= bytes@.subrange(start as int, k as int));
    }
    let ghost b = bytes@;
    let mut children: Vec<VoxChunk> = Vec::new();
    let ghost mut models: Seq<ChunkModel> = Seq::empty();
    let mut p: usize = end;
    let mut remaining: u32 = children_size;
    proof {
        let whole = parse_children(b, end as int, children_size as int);
        match whole {
            ChildrenParse::Parsed(rest, e) => {
                assert(models + rest =~= rest);
            },
            _ => {},
        }
        assert(prepend_children(models, whole) == whole);
    }
    let ghost tag_model = decode_utf8(b.subrange(pos as int, pos + 4));
    let ghost content_model = b.subrange(start as int, end as int);
    assert(parse_chunk(b, pos as int) == chunk_of_children(tag_model, content_model,
        parse_children(b, end as int, children_size as int)));
    while remaining > 0
        invariant
            pos + 12 <= end <= p <= len,
            len == bytes@.len(),
            b == bytes@,
            parse_chunk(b, pos as int) == chunk_of_children(tag_model, content_model,
                parse_children(b, end as int, children_size as int)),
            parse_children(b, end as int, children_size as int) == prepend_children(models, parse_children(b, p as int, remaining as int)),
            children@.len() == models.len(),
            forall|i: int| 0 <= i < children@.len() ==> #[trigger] children@[i].matches_model(models[i]),
        decreases len - p,
    {
        proof {
            lemma_parse_chunk_advances(b, p as int);
        }
        let read = read_chunk(bytes, p);
        let (child, next) = match read {
            Ok(x) => x,
            Err(f) => {
                return Err(f);
            },
        };
        let ghost m = match parse_chunk(b, p as int) {
            ChunkParse::Parsed(m, _) => m,
            _ => arbitrary(),
        };
        proof {
            child.lemma_matches_model(m);
        }
        let counted = ((child.content.len() as u128 + child.children.len() as u128 + 12) % 0x1_0000_0000) as u32;
        assert(counted == counted_size(m));
        if counted > remaining {
            return Err(ReadFailure::SizeUnderflow);
        }
        proof {
            let rest = parse_children(b, next as int, (remaining - counted) as int);
            match rest {
                ChildrenParse::Parsed(r2, e2) => {
                    assert(models + (seq![m] + r2) =~= models.push(m) + r2);
                },
                _ => {},
            }
            models = models.push(m);
        }
        remaining = remaining - counted;
        children.push(child);
        p = next;
    }
    proof {
        assert(models + Seq::<ChunkModel>::empty() =~= models);
    }
    let chunk = VoxChunk { tag_name, content, children };
    proof {
        let tag_seq = b.subrange(pos as int, pos + 4);
        assert(chunk.children@ =~= children@);
        chunk.lemma_matches_model(ChunkModel { tag: decode_utf8(tag_seq), content: b.subrange(start as int, end as int), children: models });
    }
    Ok((chunk, p))
}

/// The index of the first of `cs` tagged `tag`, among the first `n`.
pub open spec fn first_tagged(cs: Seq<VoxChunk>, tag: Seq<char>, n: nat) -> Option<int>
    decreases n,
{
    if n == 0 {
        None
    } else {
        match first_tagged(cs, tag, (n - 1) as nat) {
            Some(i) => Some(i),
            None => if cs[n - 1].tag() == tag {
                Some(n - 1)
            } else {
                None
            },
        }
    }
}

/// The first child tagged `tag`.
pub open spec fn find_child_spec(c: VoxChunk, tag: Seq<char>) -> Option<VoxChunk> {
    match first_tagged(c.children_spec(), tag, c.children_spec().len()) {
        Some(i) => Some(c.children_spec()[i]),
        None => None,
    }
}

pub proof fn lemma_first_tagged(cs: Seq<VoxChunk>, tag: Seq<char>, n: nat)
    requires
        n <= cs.len(),
    ensures
        first_tagged(cs, tag, n) matches Some(i) ==> 0 <= i < n && cs[i].tag() == tag
            && forall|j: int| 0 <= j < i ==> #[trigger] cs[j].tag() != tag,
        first_tagged(cs, tag, n) is None ==> forall|j: int| 0 <= j < n ==> #[trigger] cs[j].tag() != tag,
    decreases n,
{
    if n > 0 {
        lemma_first_tagged(cs, tag, (n - 1) as nat);
    }
}

/// Looking a tag up among a chunk's children finds the first child that carries it,
/// wherever it stands among all of them, and finds nothing only when no child carries it.
pub proof fn lemma_find_child_is_first(c: VoxChunk, tag: Seq<char>)
    ensures
        find_child_spec(c, tag) is None <==>
            forall|i: int| 0 <= i < c.children_spec().len() ==> #[trigger] c.children_spec()[i].tag() != tag,
        forall|i: int| 0 <= i < c.children_spec().len() && #[trigger] c.children_spec()[i].tag() == tag
            && (forall|j: int| 0 <= j < i ==> c.children_spec()[j].tag() != tag)
            ==> find_child_spec(c, tag) == Some(c.children_spec()[i]),
{
    let cs = c.children_spec();
    lemma_first_tagged(cs, tag, cs.len());
    assert forall|i: int| 0 <= i < cs.len() && #[trigger] cs[i].tag() == tag
        && (forall|j: int| 0 <= j < i ==> cs[j].tag() != tag)
        implies find_child_spec(c, tag) == Some(cs[i]) by {
        match first_tagged(cs, tag, cs.len()) {
            Some(k) => {
                if k < i {
                    assert(cs[k].tag() != tag);
                } else if k > i {
                    assert(cs[i].tag() != tag);
                }
            },
            None => {
                assert(cs[i].tag() != tag);
            },
        }
    }
}

impl VoxChunk {
    fn has_tag(&self, tag: &str) -> (r: bool)
        ensures
            r == (self.tag() == tag@),
    {
        text_eq(self.tag_name.as_str(), tag)
    }

    /// The first child tagged `tag_name`.
    pub fn find_child(&self, tag_name: &str) -> (r: Option<&VoxChunk>)
        ensures
            match find_child_spec(*self, tag_name@) {
                Some(c) => r matches Some(rc) && *rc == c,
                None => r is None,
            },
            r is None <==> forall|i: int| 0 <= i < self.children_spec().len()
                ==> #[trigger] self.children_spec()[i].tag() != tag_name@,
            r matches Some(rc) ==> rc.tag() == tag_name@ && exists|i: int| 0 <= i < self.children_spec().len()
                && self.children_spec()[i] == *rc
                && forall|j: int| 0 <= j < i ==> #[trigger] self.children_spec()[j].tag() != tag_name@,
    {
        proof {
            lemma_find_child_is_first(*self, tag_name@);
            lemma_first_tagged(self.children@, tag_name@, self.children@.len());
        }
        let mut i: usize = 0;
        while i < self.children.len()
            invariant
                i <= self.children@.len(),
                first_tagged(self.children@, tag_name@, i as nat) is None,
            decreases self.children@.len() - i,
        {
            if self.children[i].has_tag(tag_name) {
                proof {
                    reveal_with_fuel(first_tagged, 2);
                    lemma_first_tagged_stays(self.children@, tag_name@, (i + 1) as nat, self.children@.len());
                    lemma_first_tagged(self.children@, tag_name@, i as nat);
                    assert(self.children_spec()[i as int] == self.children@[i as int]);
                }
                return Some(&self.children[i]);
            }
            i = i + 1;
        }
        None
    }
}

/// Once found among the first `m`, the first index tagged stays the same.
pub proof fn lemma_first_tagged_stays(cs: Seq<VoxChunk>, tag: Seq<char>, m: nat, n: nat)
    requires
        m <= n,
    ensures
        first_tagged(cs, tag, m) is Some ==> first_tagged(cs, tag, n) == first_tagged(cs, tag, m),
    decreases n,
{
    if m < n {
        lemma_first_tagged_stays(cs, tag, m, (n - 1) as nat);
    }
}

/// The palette of a file without an `RGBA` chunk, as RGBA (the format's page
/// lists it as ABGR).
pub const DEFAULT_PALETTE: [u32; 256] = [
    0x00000000, 0xffffffff, 0xffffccff, 0xffff99ff, 0xffff66ff, 0xffff33ff, 0xffff00ff, 0xffccffff,
    0xffccccff, 0xffcc99ff, 0xffcc66ff, 0xffcc33ff, 0xffcc00ff, 0xff99ffff, 0xff99ccff, 0xff9999ff,
    0xff9966ff, 0xff9933ff, 0xff9900ff, 0xff66ffff, 0xff66ccff, 0xff6699ff, 0xff6666ff, 0xff6633ff,
    0xff6600ff, 0xff33ffff, 0xff33ccff, 0xff3399ff, 0xff3366ff, 0xff3333ff, 0xff3300ff, 0xff00ffff,
    0xff00ccff, 0xff0099ff, 0xff0066ff, 0xff0033ff, 0xff0000ff, 0xccffffff, 0xccffccff, 0xccff99ff,
    0xccff66ff, 0xccff33ff, 0xccff00ff, 0xccccffff, 0xccccccff, 0xcccc99ff, 0xcccc66ff, 0xcccc33ff,
    0xcccc00ff, 0xcc99ffff, 0xcc99ccff, 0xcc9999ff, 0xcc9966ff, 0xcc9933ff, 0xcc9900ff, 0xcc66ffff,
    0xcc66ccff, 0xcc6699ff, 0xcc6666ff, 0xcc6633ff, 0xcc6600ff, 0xcc33ffff, 0xcc33ccff, 0xcc3399ff,
    0xcc3366ff, 0xcc3333ff, 0xcc3300ff, 0xcc00ffff, 0xcc00ccff, 0xcc0099ff, 0xcc0066ff, 0xcc0033ff,
    0xcc0000ff, 0x99ffffff, 0x99ffccff, 0x99ff99ff, 0x99ff66ff, 0x99ff33ff, 0x99ff00ff, 0x99ccffff,
    0x99ccccff, 0x99cc99ff, 0x99cc66ff, 0x99cc33ff, 0x99cc00ff, 0x9999ffff, 0x9999ccff, 0x999999ff,
    0x999966ff, 0x999933ff, 0x999900ff, 0x9966ffff, 0x9966ccff, 0x996699ff, 0x996666ff, 0x996633ff,
    0x996600ff, 0x9933ffff, 0x9933ccff, 0x993399ff, 0x993366ff, 0x993333ff, 0x993300ff, 0x9900ffff,
    0x9900ccff, 0x990099ff, 0x990066ff, 0x990033ff, 0x990000ff, 0x66ffffff, 0x66ffccff, 0x66ff99ff,
    0x66ff66ff, 0x66ff33ff, 0x66ff00ff, 0x66ccffff, 0x66ccccff, 0x66cc99ff, 0x66cc66ff, 0x66cc33ff,
    0x66cc00ff, 0x6699ffff, 0x6699ccff, 0x669999ff, 0x669966ff, 0x669933ff, 0x669900ff, 0x6666ffff,
    0x6666ccff, 0x666699ff, 0x666666ff, 0x666633ff, 0x666600ff, 0x6633ffff, 0x6633ccff, 0x663399ff,
    0x663366ff, 0x663333ff, 0x663300ff, 0x6600ffff, 0x6600ccff, 0x660099ff, 0x660066ff, 0x660033ff,
    0x660000ff, 0x33ffffff, 0x33ffccff, 0x33ff99ff, 0x33ff66ff, 0x33ff33ff, 0x33ff00ff, 0x33ccffff,
    0x33ccccff, 0x33cc99ff, 0x33cc66ff, 0x33cc33ff, 0x33cc00ff, 0x3399ffff, 0x3399ccff, 0x339999ff,
    0x339966ff, 0x339933ff, 0x339900ff, 0x3366ffff, 0x3366ccff, 0x336699ff, 0x336666ff, 0x336633ff,
    0x336600ff, 0x3333ffff, 0x3333ccff, 0x333399ff, 0x333366ff, 0x333333ff, 0x333300ff, 0x3300ffff,
    0x3300ccff, 0x330099ff, 0x330066ff, 0x330033ff, 0x330000ff, 0x00ffffff, 0x00ffccff, 0x00ff99ff,
    0x00ff66ff, 0x00ff33ff, 0x00ff00ff, 0x00ccffff, 0x00ccccff, 0x00cc99ff, 0x00cc66ff, 0x00cc33ff,
    0x00cc00ff, 0x0099ffff, 0x0099ccff, 0x009999ff, 0x009966ff, 0x009933ff, 0x009900ff, 0x0066ffff,
    0x0066ccff, 0x006699ff, 0x006666ff, 0x006633ff, 0x006600ff, 0x0033ffff, 0x0033ccff, 0x003399ff,
    0x003366ff, 0x003333ff, 0x003300ff, 0x0000ffff, 0x0000ccff, 0x000099ff, 0x000066ff, 0x000033ff,
    0xee0000ff, 0xdd0000ff, 0xbb0000ff, 0xaa0000ff, 0x880000ff, 0x770000ff, 0x550000ff, 0x440000ff,
    0x220000ff, 0x110000ff, 0x00ee00ff, 0x00dd00ff, 0x00bb00ff, 0x00aa00ff, 0x008800ff, 0x007700ff,
    0x005500ff, 0x004400ff, 0x002200ff, 0x001100ff, 0x0000eeff, 0x0000ddff, 0x0000bbff, 0x0000aaff,
    0x000088ff, 0x000077ff, 0x000055ff, 0x000044ff, 0x000022ff, 0x000011ff, 0xeeeeeeff, 0xddddddff,
    0xbbbbbbff, 0xaaaaaaff, 0x888888ff, 0x777777ff, 0x555555ff, 0x444444ff, 0x222222ff, 0x111111ff,
];

/// What a `SIZE` chunk holds: three little-endian sizes, x, y then z.
pub open spec fn size_from_chunk(c: VoxChunk) -> Result<(u32, u32, u32), TransformChunkError> {
    if c.tag() != size_tag() {
        Err(TransformChunkError::WrongTagName)
    } else if c.children_spec().len() != 0 {
        Err(TransformChunkError::UnexpectedChildren)
    } else if c.content_spec().len() != 12 {
        Err(TransformChunkError::UnexpectedContentSize)
    } else {
        Ok((le_u32_at(c.content_spec(), 0) as u32, le_u32_at(c.content_spec(), 4) as u32, le_u32_at(c.content_spec(), 8) as u32))
    }
}

/// The voxels of an `XYZI` content: after the count, four bytes each: x, y, z, color index.
pub open spec fn xyzi_voxels(content: Seq<u8>) -> Seq<XYZIVoxel> {
    Seq::new(
        ((content.len() - 4) / 4) as nat,
        |k: int| XYZIVoxel { x: content[4 + 4 * k], y: content[5 + 4 * k], z: content[6 + 4 * k], i: content[7 + 4 * k] },
    )
}

/// What an `XYZI` chunk holds: a little-endian voxel count, then that many voxels.
pub open spec fn xyzi_from_chunk(c: VoxChunk) -> Result<Seq<XYZIVoxel>, TransformChunkError> {
    if c.tag() != xyzi_tag() {
        Err(TransformChunkError::WrongTagName)
    } else if c.children_spec().len() != 0 {
        Err(TransformChunkError::UnexpectedChildren)
    } else if c.content_spec().len() < 4 {
        Err(TransformChunkError::UnexpectedContentSize)
    } else if c.content_spec().len() - 4 != 4 * le_u32_at(c.content_spec(), 0) {
        Err(TransformChunkError::UnexpectedContentSize)
    } else {
        Ok(xyzi_voxels(c.content_spec()))
    }
}

/// The palette of an `RGBA` content: entry 0 is 0, entry `k` (from 1) is the
/// big-endian color number `k - 1` of the content; the last color is dropped.
pub open spec fn palette_of_content(content: Seq<u8>) -> Seq<u32> {
    Seq::new(256, |k: int| if k == 0 { 0u32 } else { be_u32_at(content, 4 * (k - 1)) as u32 })
}

/// What an `RGBA` chunk holds: 256 colors of four bytes each.
pub open spec fn rgba_from_chunk(c: VoxChunk) -> Result<Seq<u32>, TransformChunkError> {
    if c.tag() != rgba_tag() {
        Err(TransformChunkError::WrongTagName)
    } else if c.children_spec().len() != 0 {
        Err(TransformChunkError::UnexpectedChildren)
    } else if c.content_spec().len() != 1024 {
        Err(TransformChunkError::UnexpectedContentSize)
    } else {
        Ok(palette_of_content(c.content_spec()))
    }
}

/// What the chunk readers accept and give. A `SIZE` chunk without children and with 12
/// content bytes gives three little-endian sizes. An `XYZI` chunk without children whose
/// content is a little-endian count and then four bytes (x, y, z, color index) for each
/// of that many voxels gives those voxels, in order. An `RGBA` chunk without children and
/// with 1024 content bytes gives a palette whose entry 0 is 0 and whose entry `k` is the
/// big-endian color `k - 1` of the content. Any other chunk is refused.
pub proof fn lemma_chunk_readers(c: VoxChunk)
    ensures
        size_from_chunk(c) is Ok <==> c.tag() == seq!['S', 'I', 'Z', 'E'] && c.children_spec().len() == 0
            && c.content_spec().len() == 12,
        size_from_chunk(c) matches Ok(d) ==> ({
            let b = c.content_spec();
            &&& d.0 == b[0] + 256 * b[1] + 65536 * b[2] + 16777216 * b[3]
            &&& d.1 == b[4] + 256 * b[5] + 65536 * b[6] + 16777216 * b[7]
            &&& d.2 == b[8] + 256 * b[9] + 65536 * b[10] + 16777216 * b[11]
        }),
        xyzi_from_chunk(c) is Ok <==> c.tag() == seq!['X', 'Y', 'Z', 'I'] && c.children_spec().len() == 0
            && c.content_spec().len() >= 4 && c.content_spec().len() == 4 + 4 * (c.content_spec()[0]
                + 256 * c.content_spec()[1] + 65536 * c.content_spec()[2] + 16777216 * c.content_spec()[3]),
        xyzi_from_chunk(c) matches Ok(vs) ==> ({
            let b = c.content_spec();
            &&& 4 + 4 * vs.len() == b.len()
            &&& forall|k: int| 0 <= k < vs.len() ==> #[trigger] vs[k]
                == (XYZIVoxel { x: b[4 + 4 * k], y: b[5 + 4 * k], z: b[6 + 4 * k], i: b[7 + 4 * k] })
        }),
        rgba_from_chunk(c) is Ok <==> c.tag() == seq!['R', 'G', 'B', 'A'] && c.children_spec().len() == 0
            && c.content_spec().len() == 1024,
        rgba_from_chunk(c) matches Ok(p) ==> ({
            let b = c.content_spec();
            &&& p.len() == 256
            &&& p[0] == 0
            &&& forall|k: int| 1 <= k < 256 ==> #[trigger] p[k]
                == 16777216 * b[4 * k - 4] + 65536 * b[4 * k - 3] + 256 * b[4 * k - 2] + b[4 * k - 1]
        }),
{
    assert(size_tag() == seq!['S', 'I', 'Z', 'E']);
    assert(xyzi_tag() == seq!['X', 'Y', 'Z', 'I']);
    assert(rgba_tag() == seq!['R', 'G', 'B', 'A']);
    if let Ok(p) = rgba_from_chunk(c) {
        let b = c.content_spec();
        assert forall|k: int| 1 <= k < 256 implies #[trigger] p[k]
            == 16777216 * b[4 * k - 4] + 65536 * b[4 * k - 3] + 256 * b[4 * k - 2] + b[4 * k - 1] by {
            let v = be_u32_at(b, 4 * (k - 1));
            assert(v < 0x1_0000_0000) by (nonlinear_arith)
                requires v == 0x100_0000 * b[4 * (k - 1)] + 0x1_0000 * b[4 * (k - 1) + 1] + 0x100 * b[4 * (k - 1) + 2] + b[4 * (k - 1) + 3],
                    b[4 * (k - 1)] < 256, b[4 * (k - 1) + 1] < 256, b[4 * (k - 1) + 2] < 256, b[4 * (k - 1) + 3] < 256;
        }
    }
    if let Ok(d) = size_from_chunk(c) {
        let b = c.content_spec();
        assert(le_u32_at(b, 0) < 0x1_0000_0000 && le_u32_at(b, 4) < 0x1_0000_0000 && le_u32_at(b, 8) < 0x1_0000_0000);
    }
}

/// What a `PACK` chunk holds: the little-endian number of models.
pub open spec fn pack_from_chunk(c: VoxChunk) -> Result<u32, TransformChunkError> {
    if c.tag() != pack_tag() {
        Err(TransformChunkError::WrongTagName)
    } else if c.children_spec().len() != 0 {
        Err(TransformChunkError::UnexpectedChildren)
    } else if c.content_spec().len() != 4 {
        Err(TransformChunkError::UnexpectedContentSize)
    } else {
        Ok(le_u32_at(c.content_spec(), 0) as u32)
    }
}

/// The bytes of a palette, each color little-endian.
pub open spec fn palette_bytes(palette: Seq<u32>) -> Seq<u8> {
    Seq::new(4 * palette.len(), |j: int| {
        let c = palette[j / 4];
        let k = j % 4;
        if k == 0 {
            (c & 0xFF) as u8
        } else if k == 1 {
            ((c & 0xFF00) >> 8) as u8
        } else if k == 2 {
            ((c & 0xFF_0000) >> 16) as u8
        } else {
            ((c & 0xFF00_0000) >> 24) as u8
        }
    })
}

impl SizeChunk {
    pub closed spec fn tag(self) -> Seq<char> {
        self.tag_name@
    }

    pub closed spec fn dims(self) -> (u32, u32, u32) {
        (self.x_size, self.y_size, self.z_size)
    }

    /// Reads a `SIZE` chunk.
    pub fn try_from_chunk(chunk: &VoxChunk) -> (r: Result<SizeChunk, TransformChunkError>)
        ensures
            match size_from_chunk(*chunk) {
                Ok(d) => r matches Ok(s) && s.dims() == d && s.tag() == chunk.tag(),
                Err(e) => r matches Err(e2) && e2 == e,
            },
    {
        proof {
            reveal_strlit("SIZE");
            assert("SIZE"@ =~= size_tag());
        }
        if !chunk.has_tag("SIZE") {
            return Err(TransformChunkError::WrongTagName);
        }
        if chunk.children.len() != 0 {
            return Err(TransformChunkError::UnexpectedChildren);
        }
        if chunk.content.len() != 12 {
            return Err(TransformChunkError::UnexpectedContentSize);
        }
        let c = chunk.content.as_slice();
        let x_size = read_u32_le(c, 0);
        let y_size = read_u32_le(c, 4);
        let z_size = read_u32_le(c, 8);
        Ok(SizeChunk { tag_name: chunk.tag_name.clone(), x_size, y_size, z_size })
    }

    pub fn name(&self) -> (r: &str)
        ensures
            r@ == self.tag(),
    {
        self.tag_name.as_str()
    }

    pub fn x(&self) -> (r: u32)
        ensures
            r == self.dims().0,
    {
        self.x_size
    }

    pub fn y(&self) -> (r: u32)
        ensures
            r == self.dims().1,
    {
        self.y_size
    }

    pub fn z(&self) -> (r: u32)
        ensures
            r == self.dims().2,
    {
        self.z_size
    }
}

impl<'a> TryFrom<&'a VoxChunk> for SizeChunk {
    type Error = TransformChunkError;

    /// Reads a `SIZE` chunk, as `try_from_chunk` does.
    fn try_from(chunk: &'a VoxChunk) -> (r: Result<SizeChunk, TransformChunkError>)
        ensures
            match size_from_chunk(*chunk) {
                Ok(d) => r matches Ok(s) && s.dims() == d && s.tag() == chunk.tag(),
                Err(e) => r matches Err(e2) && e2 == e,
            },
    {
        SizeChunk::try_from_chunk(chunk)
    }
}

impl<'a> vstd::std_specs::convert::TryFromSpecImpl<&'a VoxChunk> for SizeChunk {
    /// The result is stated by `try_from`'s own contract, not through this trait.
    open spec fn obeys_try_from_spec() -> bool {
        false
    }

    open spec fn try_from_spec(v: &'a VoxChunk) -> Result<Self, TransformChunkError> {
        arbitrary()
    }
}

impl XYZIChunk {
    pub closed spec fn tag(self) -> Seq<char> {
        self.tag_name@
    }

    pub closed spec fn voxels_spec(self) -> Seq<XYZIVoxel> {
        self.voxels@
    }

    /// Reads an `XYZI` chunk.
    pub fn try_from_chunk(chunk: &VoxChunk) -> (r: Result<XYZIChunk, TransformChunkError>)
        ensures
            match xyzi_from_chunk(*chunk) {
                Ok(v) => r matches Ok(s) && s.voxels_spec() == v && s.tag() == chunk.tag(),
                Err(e) => r matches Err(e2) && e2 == e,
            },
    {
        proof {
            reveal_strlit("XYZI");
            assert("XYZI"@ =~= xyzi_tag());
        }
        if !chunk.has_tag("XYZI") {
            return Err(TransformChunkError::WrongTagName);
        }
        if chunk.children.len() != 0 {
            return Err(TransformChunkError::UnexpectedChildren);
        }
        let c = chunk.content.as_slice();
        if c.len() < 4 {
            return Err(TransformChunkError::UnexpectedContentSize);
        }
        let number_of_voxels = read_u32_le(c, 0) as u64;
        if (c.len() - 4) as u64 != number_of_voxels * 4 {
            return Err(TransformChunkError::UnexpectedContentSize);
        }
        let mut voxels: Vec<XYZIVoxel> = Vec::new();
        let mut k: usize = 0;
        let n = (c.len() - 4) / 4;
        let clen = c.len();
        while k < n
            invariant
                n == (c@.len() - 4) / 4,
                clen == c@.len(),
                c@.len() >= 4,
                k <= n,
                voxels@ == xyzi_voxels(c@).subrange(0, k as int),
            decreases n - k,
        {
            assert(4 * k + 8 <= clen);
            let v = XYZIVoxel { x: c[4 + 4 * k], y: c[5 + 4 * k], z: c[6 + 4 * k], i: c[7 + 4 * k] };
            voxels.push(v);
            k = k + 1;
            assert(voxels@ =~= xyzi_voxels(c@).subrange(0, k as int));
        }
        assert(voxels@ =~= xyzi_voxels(c@));
        Ok(XYZIChunk { tag_name: chunk.tag_name.clone(), voxels })
    }

    pub fn voxels(&self) -> (r: &Vec<XYZIVoxel>)
        ensures
            r@ == self.voxels_spec(),
    {
        &self.voxels
    }

    pub fn get_voxels(self) -> (r: Vec<XYZIVoxel>)
        ensures
            r@ == self.voxels_spec(),
    {
        self.voxels
    }
}

impl<'a> TryFrom<&'a VoxChunk> for XYZIChunk {
    type Error = TransformChunkError;

    /// Reads an `XYZI` chunk, as `try_from_chunk` does.
    fn try_from(chunk: &'a VoxChunk) -> (r: Result<XYZIChunk, TransformChunkError>)
        ensures
            match xyzi_from_chunk(*chunk) {
                Ok(v) => r matches Ok(s) && s.voxels_spec() == v && s.tag() == chunk.tag(),
                Err(e) => r matches Err(e2) && e2 == e,
            },
    {
        XYZIChunk::try_from_chunk(chunk)
    }
}

impl<'a> vstd::std_specs::convert::TryFromSpecImpl<&'a VoxChunk> for XYZIChunk {
    /// The result is stated by `try_from`'s own contract, not through this trait.
    open spec fn obeys_try_from_spec() -> bool {
        false
    }

    open spec fn try_from_spec(v: &'a VoxChunk) -> Result<Self, TransformChunkError> {
        arbitrary()
    }
}

impl RGBAChunk {
    pub closed spec fn palette_spec(self) -> Seq<u32> {
        self.rgba_palette@
    }

    /// Reads an `RGBA` chunk.
    pub fn try_from_chunk(chunk: &VoxChunk) -> (r: Result<RGBAChunk, TransformChunkError>)
        ensures
            match rgba_from_chunk(*chunk) {
                Ok(p) => r matches Ok(s) && s.palette_spec() == p,
                Err(e) => r matches Err(e2) && e2 == e,
            },
    {
        proof {
            reveal_strlit("RGBA");
            assert("RGBA"@ =~= rgba_tag());
        }
        if !chunk.has_tag("RGBA") {
            return Err(TransformChunkError::WrongTagName);
        }
        if chunk.children.len() != 0 {
            return Err(TransformChunkError::UnexpectedChildren);
        }
        let c = chunk.content.as_slice();
        if c.len() != 1024 {
            return Err(TransformChunkError::UnexpectedContentSize);
        }
        let mut rgba_palette = [0u32; 256];
        let mut k: usize = 1;
        while k < 256
            invariant
                1 <= k <= 256,
                c@.len() == 1024,
                forall|j: int| 0 <= j < k ==> #[trigger] rgba_palette@[j] == palette_of_content(c@)[j],
                forall|j: int| k <= j < 256 ==> #[trigger] rgba_palette@[j] == 0,
            decreases 256 - k,
        {
            let p = 4 * (k - 1);
            let color = (c[p] as u32) * 0x100_0000 + (c[p + 1] as u32) * 0x1_0000 + (c[p + 2] as u32) * 0x100 + (c[p + 3] as u32);
            rgba_palette[k] = color;
            k = k + 1;
        }
        assert(rgba_palette@ =~= palette_of_content(c@));
        Ok(RGBAChunk { rgba_palette })
    }

    pub fn palette(&self) -> (r: &[u32; 256])
        ensures
            r@ == self.palette_spec(),
    {
        &self.rgba_palette
    }

    pub fn get_palette(self) -> (r: [u32; 256])
        ensures
            r@ == self.palette_spec(),
    {
        self.rgba_palette
    }

    /// The chunk that stores this palette: tag `RGBA`, no children, and each color as
    /// four little-endian bytes.
    pub fn into_chunk(self) -> (r: VoxChunk)
        ensures
            r.tag() == rgba_tag(),
            r.children_spec().len() == 0,
            r.content_spec() == palette_bytes(self.palette_spec()),
    {
        let mut content: Vec<u8> = Vec::new();
        let mut k: usize = 0;
        while k < 256
            invariant
                k <= 256,
                content@ == palette_bytes(self.rgba_palette@).subrange(0, 4 * k as int),
            decreases 256 - k,
        {
            let color = self.rgba_palette[k];
            content.push((color & 0xFF) as u8);
            content.push(((color & 0xFF00) >> 8) as u8);
            content.push(((color & 0xFF_0000) >> 16) as u8);
            content.push(((color & 0xFF00_0000) >> 24) as u8);
            k = k + 1;
            assert(content@ =~= palette_bytes(self.rgba_palette@).subrange(0, 4 * k as int));
        }
        proof {
            reveal_strlit("RGBA");
        }
        let tag_name = "RGBA".to_owned();
        assert(tag_name@ =~= rgba_tag());
        VoxChunk { tag_name, content, children: Vec::new() }
    }
}

impl<'a> TryFrom<&'a VoxChunk> for RGBAChunk {
    type Error = TransformChunkError;

    /// Reads an `RGBA` chunk, as `try_from_chunk` does.
    fn try_from(chunk: &'a VoxChunk) -> (r: Result<RGBAChunk, TransformChunkError>)
        ensures
            match rgba_from_chunk(*chunk) {
                Ok(p) => r matches Ok(s) && s.palette_spec() == p,
                Err(e) => r matches Err(e2) && e2 == e,
            },
    {
        RGBAChunk::try_from_chunk(chunk)
    }
}

impl<'a> vstd::std_specs::convert::TryFromSpecImpl<&'a VoxChunk> for RGBAChunk {
    /// The result is stated by `try_from`'s own contract, not through this trait.
    open spec fn obeys_try_from_spec() -> bool {
        false
    }

    open spec fn try_from_spec(v: &'a VoxChunk) -> Result<Self, TransformChunkError> {
        arbitrary()
    }
}

impl From<RGBAChunk> for VoxChunk {
    /// The chunk that stores a palette, as `RGBAChunk::into_chunk` builds it.
    fn from(chunk: RGBAChunk) -> (r: VoxChunk)
        ensures
            r.tag() == rgba_tag(),
            r.children_spec().len() == 0,
            r.content_spec() == palette_bytes(chunk.palette_spec()),
    {
        chunk.into_chunk()
    }
}

impl vstd::std_specs::convert::FromSpecImpl<RGBAChunk> for VoxChunk {
    /// The result is stated by `from`'s own contract, not through this trait.
    open spec fn obeys_from_spec() -> bool {
        false
    }

    open spec fn from_spec(v: RGBAChunk) -> VoxChunk {
        arbitrary()
    }
}

/// What reading a `PACK` chunk gives.
pub closed spec fn pack_chunk_of(c: VoxChunk) -> Result<PackChunk, TransformChunkError> {
    match pack_from_chunk(c) {
        Ok(n) => Ok(PackChunk { number_of_models: n }),
        Err(e) => Err(e),
    }
}

impl PackChunk {
    pub closed spec fn models_spec(self) -> u32 {
        self.number_of_models
    }

    /// Reads a `PACK` chunk.
    pub fn try_from_chunk(chunk: &VoxChunk) -> (r: Result<PackChunk, TransformChunkError>)
        ensures
            match pack_from_chunk(*chunk) {
                Ok(n) => r matches Ok(s) && s.models_spec() == n,
                Err(e) => r matches Err(e2) && e2 == e,
            },
    {
        proof {
            reveal_strlit("PACK");
            assert("PACK"@ =~= pack_tag());
        }
        if !chunk.has_tag("PACK") {
            return Err(TransformChunkError::WrongTagName);
        }
        if chunk.children.len() != 0 {
            return Err(TransformChunkError::UnexpectedChildren);
        }
        if chunk.content.len() != 4 {
            return Err(TransformChunkError::UnexpectedContentSize);
        }
        let number_of_models = read_u32_le(chunk.content.as_slice(), 0);
        Ok(PackChunk { number_of_models })
    }
}

impl XYZIVoxel {
    pub fn x(&self) -> (r: u8)
        ensures
            r == self.x,
    {
        self.x
    }

    pub fn y(&self) -> (r: u8)
        ensures
            r == self.y,
    {
        self.y
    }

    pub fn z(&self) -> (r: u8)
        ensures
            r == self.z,
    {
        self.z
    }

    pub fn i(&self) -> (r: u8)
        ensures
            r == self.i,
    {
        self.i
    }

    /// The voxel's position.
    pub fn xyz(&self) -> (r: UVec3)
        ensures
            r == (UVec3 { x: self.x as u32, y: self.y as u32, z: self.z as u32 }),
    {
        UVec3 { x: self.x as u32, y: self.y as u32, z: self.z as u32 }
    }
}

impl VoxFile {
    /// Reads a `.vox` file from its bytes: `Some(Ok(..))` for a file, `Some(Err(..))`
    /// for the error that the reader reports, and `None` where a chunk's children overrun
    /// the size that it gives them (where the reader's count of children bytes would go
    /// below zero).
    pub fn parse_vox_bytes(bytes: &[u8]) -> (r: Option<Result<VoxFile, LoadVoxError>>)
        ensures
            match parse_vox(bytes@) {
                FileParse::Parsed(v, m) => r matches Some(Ok(f)) && f.version_spec() == v
                    && f.main_chunk_spec().matches_model(m),
                FileParse::Failed(e) => r matches Some(Err(e2)) && e2 == e,
                FileParse::Underflow => r is None,
            },
    {
        let len = bytes.len();
        if len < 4 {
            return Some(Err(LoadVoxError::CouldNotReadFile));
        }
        if !(bytes[0] == 0x56 && bytes[1] == 0x4F && bytes[2] == 0x58 && bytes[3] == 0x20) {
            proof {
                if bytes@.subrange(0, 4) == vox_magic() {
                    assert(bytes@.subrange(0, 4)[0] == 0x56u8);
                    assert(bytes@.subrange(0, 4)[1] == 0x4Fu8);
                    assert(bytes@.subrange(0, 4)[2] == 0x58u8);
                    assert(bytes@.subrange(0, 4)[3] == 0x20u8);
                }
            }
            return Some(Err(LoadVoxError::InvalidFileHeader));
        }
        assert(bytes@.subrange(0, 4) =~= vox_magic());
        if len < 8 {
            return Some(Err(LoadVoxError::CouldNotReadFile));
        }
        let version_number = read_u32_le(bytes, 4);
        match read_chunk(bytes, 8) {
            Ok((main_chunk, _)) => {
                let ghost m = match parse_chunk(bytes@, 8) {
                    ChunkParse::Parsed(m, _) => m,
                    _ => arbitrary(),
                };
                proof {
                    main_chunk.lemma_matches_model(m);
                    reveal_strlit("MAIN");
                    assert("MAIN"@ =~= main_tag());
                }
                if !text_eq(main_chunk.tag_name.as_str(), "MAIN") {
                    return Some(Err(LoadVoxError::NoMainChunk));
                }
                Some(Ok(VoxFile { version_number, main_chunk }))
            },
            Err(ReadFailure::Error(e)) => Some(Err(e)),
            Err(ReadFailure::SizeUnderflow) => None,
        }
    }
}

impl<'a> TryFrom<&'a VoxChunk> for PackChunk {
    type Error = TransformChunkError;

    /// Reads a `PACK` chunk, as `try_from_chunk` does.
    fn try_from(chunk: &'a VoxChunk) -> (r: Result<PackChunk, TransformChunkError>)
        ensures
            match pack_from_chunk(*chunk) {
                Ok(n) => r matches Ok(s) && s.models_spec() == n,
                Err(e) => r matches Err(e2) && e2 == e,
            },
    {
        PackChunk::try_from_chunk(chunk)
    }
}

impl<'a> vstd::std_specs::convert::TryFromSpecImpl<&'a VoxChunk> for PackChunk {
    open spec fn obeys_try_from_spec() -> bool {
        true
    }

    open spec fn try_from_spec(v: &'a VoxChunk) -> Result<Self, TransformChunkError> {
        pack_chunk_of(*v)
    }
}

} // verus!
