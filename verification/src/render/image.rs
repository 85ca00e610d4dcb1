//! Decoding images, and keeping them in memory within a limit.

use vstd::prelude::*;

verus! {

/// The limit of the images in memory, by default.
pub const DEFAULT_CACHE_BYTES: usize = 64 * 1024 * 1024;

/// The least limit of the images in memory.
pub const LEAST_CACHE_BYTES: usize = 1024;

/// Most images in memory.
pub const CACHE_ENTRIES: usize = 256;

/// What the images in memory are cut to after a scene.
pub const TRIM_TARGET_BYTES: usize = 32 * 1024 * 1024;

/// A decoded image: four bytes for each pixel.
#[derive(Debug)]
pub struct RgbaBitmap {
    pub width: u32,
    pub height: u32,
    pub rgba: Vec<u8>,
}

/// Model of an [`RgbaBitmap`].
#[verifier::ext_equal]
pub struct BitmapView {
    pub width: u32,
    pub height: u32,
    pub rgba: Seq<u8>,
}

impl View for RgbaBitmap {
    type V = BitmapView;

    open spec fn view(&self) -> BitmapView {
        BitmapView { width: self.width, height: self.height, rgba: self.rgba@ }
    }
}

impl Clone for RgbaBitmap {
    fn clone(&self) -> (r: Self)
        ensures
            r@ == self@,
    {
        let rgba: Vec<u8> = self.rgba.clone();
        assert(rgba@ =~= self.rgba@);
        RgbaBitmap { width: self.width, height: self.height, rgba }
    }
}

impl BitmapView {
    /// The bytes of the pixels.
    pub open spec fn bytes(self) -> int {
        self.width * self.height * 4
    }
}

/// The picture that the bytes of a file hold: width, height and four bytes for each pixel, as `image`
/// decodes it; nothing where it cannot.
pub uninterp spec fn decoded_image(bytes: Seq<u8>) -> Option<(u32, u32, Seq<u8>)>;

/// The pixels of a picture of one size at another, as `image` computes them with its triangle filter.
pub uninterp spec fn resized_pixels(
    rgba: Seq<u8>,
    width: u32,
    height: u32,
    to_width: u32,
    to_height: u32,
) -> Seq<u8>;

/// Longest side up to which the middle of every pixel is told apart from its neighbours'.
pub const EXACT_SIDE: u32 = 8_388_608;

/// Longest side such that a picture can be brought to it, or from it, whatever the other side is.
pub const SAFE_SIDE: u32 = 4_194_304;

/// Whether a side of one length can be brought to another: where both are too long, a new pixel may
/// fall between all the old ones, and there is nothing to compute it from.
pub open spec fn side_fits(side: u32, to_side: u32) -> bool {
    ||| side <= SAFE_SIDE
    ||| to_side <= SAFE_SIDE
    ||| side <= EXACT_SIDE && to_side <= EXACT_SIDE
}

/// Whether the pixels of a picture of one size have to be computed anew for another: they are copied
/// where the sizes are the same, and blank where there are none.
pub open spec fn resampled(width: u32, height: u32, to_width: u32, to_height: u32) -> bool {
    width > 0 && height > 0 && (width != to_width || height != to_height)
}

/// Whether a picture of one size can be brought to another: the result can be held, and where pixels
/// have to be computed, both sides can be, and what is computed on the way can be held. That is the
/// picture at its old width and its new height with sixteen bytes for each pixel, and the weights of
/// the pixels of a column.
pub open spec fn resizable(width: u32, height: u32, to_width: u32, to_height: u32) -> bool {
    &&& to_width * to_height * 4 <= isize::MAX
    &&& resampled(width, height, to_width, to_height) ==> {
        &&& side_fits(width, to_width)
        &&& side_fits(height, to_height)
        &&& width * to_height * 16 <= isize::MAX
        &&& height * 16 <= isize::MAX
    }
}

/// `image::load_from_memory` and `to_rgba8`: the picture that the bytes hold, with four bytes for each
/// pixel, or why there is none. Nothing is said of the words in which that is told.
#[verifier::external_body]
fn load_rgba(bytes: &Vec<u8>) -> (r: Result<(u32, u32, Vec<u8>), String>)
    ensures
        match r {
            Ok((width, height, rgba)) => {
                &&& decoded_image(bytes@) == Some((width, height, rgba@))
                &&& rgba@.len() == width * height * 4
            },
            Err(_) => decoded_image(bytes@) is None,
        },
{
    match image::load_from_memory(bytes) {
        Ok(picture) => {
            let picture = picture.to_rgba8();
            Ok((picture.width(), picture.height(), picture.into_raw()))
        },
        Err(err) => Err(err.to_string()),
    }
}

/// Whether `reason` is what was said when the bytes were to be decoded, and could not be.
pub closed spec fn refused(bytes: Vec<u8>, reason: Seq<char>) -> bool {
    exists|text: String|
        #[trigger] call_ensures(load_rgba, (&bytes,), Err::<(u32, u32, Vec<u8>), String>(text))
            && text@ == reason
}

/// Whether `reason` is why bytes give no picture: it is too large, or there is none in them.
pub open spec fn image_fault(bytes: Vec<u8>, reason: Seq<char>) -> bool {
    if decoded_image(bytes@) is Some {
        reason == TOO_LARGE_MESSAGE@
    } else {
        refused(bytes, reason)
    }
}

/// `image::imageops::resize` with the triangle filter: the pixels at the new size, four bytes for
/// each. Left out are the sizes at which it may panic: those that cannot be held, and those at which
/// no old pixel is near enough to a new one for its weights to add up to more than nothing.
#[verifier::external_body]
fn resize_rgba(
    rgba: Vec<u8>,
    width: u32,
    height: u32,
    to_width: u32,
    to_height: u32,
) -> (r: Vec<u8>)
    requires
        rgba@.len() == width * height * 4,
        resizable(width, height, to_width, to_height),
    ensures
        r@ == resized_pixels(rgba@, width, height, to_width, to_height),
        r@.len() == to_width * to_height * 4,
{
    let picture = image::RgbaImage::from_raw(width, height, rgba).unwrap();
    let filter = image::imageops::FilterType::Triangle;
    image::imageops::resize(&picture, to_width, to_height, filter).into_raw()
}

/// What is said of a picture that cannot be brought to the size at which it is shown.
pub const TOO_LARGE_MESSAGE: &'static str = "image is too large to be resized";

/// A picture at the size at which it is shown; where that is not known, as it is. Nothing where it
/// cannot be brought to that size.
pub open spec fn fitted(image: BitmapView, to_width: u32, to_height: u32) -> Option<BitmapView> {
    if to_width == 0 || to_height == 0 {
        Some(image)
    } else if resizable(image.width, image.height, to_width, to_height) {
        Some(
            BitmapView {
                width: to_width,
                height: to_height,
                rgba: resized_pixels(image.rgba, image.width, image.height, to_width, to_height),
            },
        )
    } else {
        None
    }
}

/// The picture that the bytes of a file hold, at the size at which it is shown.
pub open spec fn image_of(bytes: Seq<u8>, to_width: u32, to_height: u32) -> Option<BitmapView> {
    match decoded_image(bytes) {
        Some((width, height, rgba)) => fitted(
            BitmapView { width, height, rgba },
            to_width,
            to_height,
        ),
        None => None,
    }
}

fn can_fit_side(side: u32, to_side: u32) -> (r: bool)
    ensures
        r == side_fits(side, to_side),
{
    side <= SAFE_SIDE || to_side <= SAFE_SIDE || (side <= EXACT_SIDE && to_side <= EXACT_SIDE)
}

fn can_hold(width: u32, height: u32, pixel_bytes: u32) -> (r: bool)
    requires
        pixel_bytes <= 16,
    ensures
        r == (width * height * pixel_bytes <= isize::MAX),
{
    assert(0 <= width * height <= u32::MAX * u32::MAX) by (nonlinear_arith);
    assert(0 <= width * height * pixel_bytes <= u32::MAX * u32::MAX * 16) by (nonlinear_arith)
        requires
            0 <= width * height <= u32::MAX * u32::MAX,
            pixel_bytes <= 16,
    ;
    let bytes: u128 = width as u128 * height as u128 * pixel_bytes as u128;
    bytes <= isize::MAX as u128
}

fn can_resize(width: u32, height: u32, to_width: u32, to_height: u32) -> (r: bool)
    ensures
        r == resizable(width, height, to_width, to_height),
{
    if !can_hold(to_width, to_height, 4) {
        return false;
    }
    if width == 0 || height == 0 || (width == to_width && height == to_height) {
        return true;
    }
    can_fit_side(width, to_width) && can_fit_side(height, to_height) && can_hold(
        width,
        to_height,
        16,
    ) && can_hold(1, height, 16)
}

/// Brings a picture to the size at which it is shown; where that is not known, it stays as it is.
pub fn fit_image(image: RgbaBitmap, to_width: u32, to_height: u32) -> (r: Result<RgbaBitmap, String>)
    requires
        image@.rgba.len() == image@.bytes(),
    ensures
        match r {
            Ok(sized) => {
                &&& fitted(image@, to_width, to_height) == Some(sized@)
                &&& sized@.rgba.len() == sized@.bytes()
            },
            Err(reason) => {
                &&& fitted(image@, to_width, to_height) is None
                &&& reason@ == TOO_LARGE_MESSAGE@
            },
        },
{
    if to_width == 0 || to_height == 0 {
        return Ok(image);
    }
    if !can_resize(image.width, image.height, to_width, to_height) {
        return Err(TOO_LARGE_MESSAGE.to_owned());
    }
    let rgba: Vec<u8> = resize_rgba(image.rgba, image.width, image.height, to_width, to_height);
    Ok(RgbaBitmap { width: to_width, height: to_height, rgba })
}

/// Decodes the bytes of a file and brings the picture to the size at which it is shown; where that is
/// not known, it stays as it is.
pub fn decode_image(bytes: &Vec<u8>, target_width: u32, target_height: u32) -> (r: Result<
    RgbaBitmap,
    String,
>)
    ensures
        match r {
            Ok(image) => {
                &&& image_of(bytes@, target_width, target_height) == Some(image@)
                &&& image@.rgba.len() == image@.bytes()
            },
            Err(reason) => {
                &&& image_of(bytes@, target_width, target_height) is None
                &&& image_fault(*bytes, reason@)
            },
        },
{
    match load_rgba(bytes) {
        Ok((width, height, rgba)) => fit_image(
            RgbaBitmap { width, height, rgba },
            target_width,
            target_height,
        ),
        Err(reason) => {
            assert(refused(*bytes, reason@));
            Err(reason)
        },
    }
}

/// The hasher of an [`lru::LruCache`] that names none.
#[verifier::external_type_specification]
#[verifier::external_body]
pub struct ExDefaultHasher(lru::DefaultHasher);

/// A cache that drops what was not used for longest.
#[verifier::external_type_specification]
#[verifier::external_body]
#[verifier::reject_recursive_types(K)]
#[verifier::reject_recursive_types(V)]
#[verifier::reject_recursive_types(S)]
pub struct ExLruCache<K, V, S>(lru::LruCache<K, V, S>);

/// What a cache holds, from what was not used for longest to what was used last.
pub uninterp spec fn cached(cache: lru::LruCache<String, RgbaBitmap>) -> Seq<(Seq<char>, BitmapView)>;

/// Most entries that a cache was made to hold.
pub uninterp spec fn capacity(cache: lru::LruCache<String, RgbaBitmap>) -> nat;

/// An image and its name.
pub type CacheEntry = (Seq<char>, BitmapView);

/// Where the entry of this name stands; the last one counts.
pub open spec fn find_key(entries: Seq<CacheEntry>, key: Seq<char>) -> Option<int>
    decreases entries.len(),
{
    if entries.len() == 0 {
        None
    } else if entries.last().0 == key {
        Some(entries.len() - 1)
    } else {
        find_key(entries.drop_last(), key)
    }
}

/// The entries once the one of this name was used.
pub open spec fn used(entries: Seq<CacheEntry>, key: Seq<char>) -> Seq<CacheEntry> {
    match find_key(entries, key) {
        Some(i) => entries.remove(i).push(entries[i]),
        None => entries,
    }
}

/// The entries once an image was put in: in the place of one of its name, or else, where there are
/// as many as there may be, of the one that was not used for longest.
pub open spec fn put_in(
    entries: Seq<CacheEntry>,
    key: Seq<char>,
    image: BitmapView,
    most: nat,
) -> Seq<CacheEntry> {
    match find_key(entries, key) {
        Some(i) => entries.remove(i).push((key, image)),
        None => if entries.len() >= most {
            entries.skip(1).push((key, image))
        } else {
            entries.push((key, image))
        },
    }
}

/// `lru::LruCache::new`: an empty cache for this many entries.
#[verifier::external_body]
fn new_lru(most: usize) -> (r: lru::LruCache<String, RgbaBitmap>)
    requires
        0 < most <= CACHE_ENTRIES,
    ensures
        cached(r) == Seq::<CacheEntry>::empty(),
        capacity(r) == most,
{
    lru::LruCache::new(std::num::NonZeroUsize::new(most).unwrap())
}

/// `lru::LruCache::get`: the entry of this name, which is then the one that was used last.
#[verifier::external_body]
fn lru_get<'a>(cache: &'a mut lru::LruCache<String, RgbaBitmap>, key: &str) -> (r: Option<
    &'a RgbaBitmap,
>)
    ensures
        cached(*final(cache)) == used(cached(*old(cache)), key@),
        capacity(*final(cache)) == capacity(*old(cache)),
        match r {
            Some(image) => find_key(cached(*old(cache)), key@) matches Some(i) && image@ == cached(
                *old(cache),
            )[i].1,
            None => find_key(cached(*old(cache)), key@) is None,
        },
{
    cache.get(key)
}

/// `lru::LruCache::put`: puts an entry in as the one that was used last, in the place of one of its
/// name, which is handed back. Where the cache is full, the entry that was not used for longest goes,
/// and is not handed back.
#[verifier::external_body]
fn lru_put(cache: &mut lru::LruCache<String, RgbaBitmap>, key: String, image: RgbaBitmap) -> (r:
    Option<RgbaBitmap>)
    ensures
        cached(*final(cache)) == put_in(
            cached(*old(cache)),
            key@,
            image@,
            capacity(*old(cache)),
        ),
        capacity(*final(cache)) == capacity(*old(cache)),
        match r {
            Some(before) => find_key(cached(*old(cache)), key@) matches Some(i) && before@ == cached(
                *old(cache),
            )[i].1,
            None => find_key(cached(*old(cache)), key@) is None,
        },
{
    cache.put(key, image)
}

/// `lru::LruCache::pop_lru`: takes out the entry that was not used for longest, and says whether
/// there was one.
#[verifier::external_body]
fn lru_pop(cache: &mut lru::LruCache<String, RgbaBitmap>) -> (r: bool)
    ensures
        r == (cached(*old(cache)).len() > 0),
        cached(*final(cache)) == (if cached(*old(cache)).len() > 0 {
            cached(*old(cache)).skip(1)
        } else {
            cached(*old(cache))
        }),
        capacity(*final(cache)) == capacity(*old(cache)),
{
    cache.pop_lru().is_some()
}

/// `lru::LruCache::clear`: takes out all entries.
#[verifier::external_body]
fn lru_clear(cache: &mut lru::LruCache<String, RgbaBitmap>)
    ensures
        cached(*final(cache)) == Seq::<CacheEntry>::empty(),
        capacity(*final(cache)) == capacity(*old(cache)),
{
    cache.clear();
}

/// `lru::LruCache::iter`: the width and height of each entry, the one that was used last first.
#[verifier::external_body]
fn lru_sizes(cache: &lru::LruCache<String, RgbaBitmap>) -> (r: Vec<(u32, u32)>)
    ensures
        r@ == Seq::new(
            cached(*cache).len(),
            |i: int|
                (
                    cached(*cache)[cached(*cache).len() - 1 - i].1.width,
                    cached(*cache)[cached(*cache).len() - 1 - i].1.height,
                ),
        ),
{
    cache.iter().map(|(_, image)| (image.width, image.height)).collect()
}

/// The bytes of all images.
pub open spec fn held_bytes(entries: Seq<CacheEntry>) -> int
    decreases entries.len(),
{
    if entries.len() == 0 {
        0
    } else {
        held_bytes(entries.drop_last()) + entries.last().1.bytes()
    }
}

/// Model of an [`ImageCache`].
#[verifier::ext_equal]
pub struct ImageCacheView {
    /// From what was not used for longest to what was used last.
    pub entries: Seq<CacheEntry>,
    /// The bytes that the cache counts.
    pub counted: int,
    pub most_bytes: int,
}

/// The cache once images have gone, those that were not used for longest first, until `need` more
/// bytes are within `limit`, or none is left.
pub open spec fn with_room(cache: ImageCacheView, limit: int, need: int) -> ImageCacheView
    decreases cache.entries.len(),
{
    if cache.counted + need > limit && cache.entries.len() > 0 {
        let rest = cache.entries.skip(1);
        with_room(
            ImageCacheView { entries: rest, counted: held_bytes(rest), ..cache },
            limit,
            need,
        )
    } else {
        cache
    }
}

/// The cache once an image was put in.
pub open spec fn with_image(cache: ImageCacheView, key: Seq<char>, image: BitmapView) -> ImageCacheView {
    let roomy = with_room(cache, cache.most_bytes, image.bytes());
    let replaced = match find_key(roomy.entries, key) {
        Some(i) => roomy.entries[i].1.bytes(),
        None => 0,
    };
    ImageCacheView {
        entries: put_in(roomy.entries, key, image, CACHE_ENTRIES as nat),
        counted: roomy.counted - replaced + image.bytes(),
        ..roomy
    }
}

/// Whether a cache counts no fewer bytes than it holds, and none where it holds nothing.
pub open spec fn image_cache_valid(cache: ImageCacheView) -> bool {
    &&& held_bytes(cache.entries) <= cache.counted <= usize::MAX
    &&& cache.entries.len() == 0 ==> cache.counted == 0
    &&& 0 <= cache.most_bytes <= usize::MAX
}

/// Decoded images in memory. Where they have more bytes than the limit, those that were not used for
/// longest go.
pub struct ImageCache {
    cache: lru::LruCache<String, RgbaBitmap>,
    current_bytes: usize,
    max_bytes: usize,
}

impl View for ImageCache {
    type V = ImageCacheView;

    closed spec fn view(&self) -> ImageCacheView {
        ImageCacheView {
            entries: cached(self.cache),
            counted: self.current_bytes as int,
            most_bytes: self.max_bytes as int,
        }
    }
}

proof fn lemma_bytes(width: u32, height: u32)
    ensures
        0 <= width * height * 4 < 0x4_0000_0000_0000_0000,
{
    assert(0 <= width * height * 4 < 0x4_0000_0000_0000_0000) by (nonlinear_arith);
}

proof fn lemma_held_nonnegative(entries: Seq<CacheEntry>)
    ensures
        held_bytes(entries) >= 0,
    decreases entries.len(),
{
    if entries.len() > 0 {
        lemma_held_nonnegative(entries.drop_last());
        lemma_bytes(entries.last().1.width, entries.last().1.height);
    }
}

proof fn lemma_held_first(entries: Seq<CacheEntry>)
    requires
        entries.len() > 0,
    ensures
        held_bytes(entries) == entries[0].1.bytes() + held_bytes(entries.skip(1)),
    decreases entries.len(),
{
    if entries.len() == 1 {
        assert(entries.drop_last() =~= Seq::empty());
        assert(entries.skip(1) =~= Seq::empty());
    } else {
        lemma_held_first(entries.drop_last());
        assert(entries.drop_last().skip(1) =~= entries.skip(1).drop_last());
        assert(entries.skip(1).last() == entries.last());
    }
}

proof fn lemma_held_remove(entries: Seq<CacheEntry>, i: int)
    requires
        0 <= i < entries.len(),
    ensures
        held_bytes(entries) == held_bytes(entries.remove(i)) + entries[i].1.bytes(),
    decreases entries.len(),
{
    if i == entries.len() - 1 {
        assert(entries.remove(i) =~= entries.drop_last());
    } else {
        lemma_held_remove(entries.drop_last(), i);
        assert(entries.remove(i).drop_last() =~= entries.drop_last().remove(i));
        assert(entries.remove(i).last() == entries.last());
    }
}

proof fn lemma_find_key(entries: Seq<CacheEntry>, key: Seq<char>)
    ensures
        find_key(entries, key) matches Some(i) ==> 0 <= i < entries.len() && entries[i].0 == key,
        find_key(entries, key) is None ==> forall|i: int|
            0 <= i < entries.len() ==> (#[trigger] entries[i]).0 != key,
    decreases entries.len(),
{
    if entries.len() > 0 {
        lemma_find_key(entries.drop_last(), key);
        if find_key(entries, key) is None {
            assert forall|i: int| 0 <= i < entries.len() implies (#[trigger] entries[i]).0 != key by {
                if i < entries.len() - 1 {
                    assert(entries.drop_last()[i] == entries[i]);
                }
            }
        }
    }
}

proof fn lemma_used_bytes(entries: Seq<CacheEntry>, key: Seq<char>)
    ensures
        held_bytes(used(entries, key)) == held_bytes(entries),
        used(entries, key).len() == entries.len(),
{
    lemma_find_key(entries, key);
    if let Some(i) = find_key(entries, key) {
        lemma_held_remove(entries, i);
        assert(used(entries, key).drop_last() =~= entries.remove(i));
    }
}

proof fn lemma_put_bytes(entries: Seq<CacheEntry>, key: Seq<char>, image: BitmapView, most: nat)
    requires
        most > 0,
    ensures
        ({
            let replaced = match find_key(entries, key) {
                Some(i) => entries[i].1.bytes(),
                None => 0,
            };
            &&& 0 <= replaced <= held_bytes(entries)
            &&& held_bytes(put_in(entries, key, image, most)) <= held_bytes(entries) - replaced
                + image.bytes()
            &&& put_in(entries, key, image, most).len() > 0
            &&& put_in(entries, key, image, most).last() == (key, image)
        }),
{
    let out = put_in(entries, key, image, most);
    lemma_find_key(entries, key);
    lemma_held_nonnegative(entries);
    assert(out.drop_last().push(out.last()) =~= out);
    match find_key(entries, key) {
        Some(i) => {
            lemma_held_remove(entries, i);
            lemma_held_nonnegative(entries.remove(i));
            lemma_bytes(entries[i].1.width, entries[i].1.height);
            assert(out.drop_last() =~= entries.remove(i));
        },
        None => {
            if entries.len() >= most {
                lemma_held_first(entries);
                lemma_bytes(entries[0].1.width, entries[0].1.height);
                assert(out.drop_last() =~= entries.skip(1));
            } else {
                assert(out.drop_last() =~= entries);
            }
        },
    }
}

proof fn lemma_with_room(cache: ImageCacheView, limit: int, need: int)
    requires
        image_cache_valid(cache),
        need >= 0,
    ensures
        image_cache_valid(with_room(cache, limit, need)),
        with_room(cache, limit, need).most_bytes == cache.most_bytes,
        with_room(cache, limit, need).counted + need <= limit || with_room(
            cache,
            limit,
            need,
        ).entries.len() == 0,
    decreases cache.entries.len(),
{
    if cache.counted + need > limit && cache.entries.len() > 0 {
        let rest = cache.entries.skip(1);
        lemma_held_first(cache.entries);
        lemma_bytes(cache.entries[0].1.width, cache.entries[0].1.height);
        lemma_held_nonnegative(rest);
        lemma_with_room(
            ImageCacheView { entries: rest, counted: held_bytes(rest), ..cache },
            limit,
            need,
        );
    }
}

/// The bytes of an image.
pub fn image_bytes(image: &RgbaBitmap) -> (r: usize)
    requires
        image@.rgba.len() == image@.bytes(),
    ensures
        r == image@.bytes(),
{
    image.rgba.len()
}

impl ImageCache {
    /// Whether the cache counts no fewer bytes than it holds.
    pub closed spec fn valid(self) -> bool {
        image_cache_valid(self@) && capacity(self.cache) == CACHE_ENTRIES
    }

    /// A cache with this limit, and at least with the least one.
    pub fn new(max_bytes: usize) -> (r: ImageCache)
        ensures
            r.valid(),
            r@ == (ImageCacheView {
                entries: Seq::empty(),
                counted: 0,
                most_bytes: if max_bytes >= LEAST_CACHE_BYTES {
                    max_bytes as int
                } else {
                    LEAST_CACHE_BYTES as int
                },
            }),
            r@.most_bytes == max_bytes || max_bytes < 1024 && r@.most_bytes == 1024,
    {
        ImageCache {
            cache: new_lru(CACHE_ENTRIES),
            current_bytes: 0,
            max_bytes: if max_bytes >= LEAST_CACHE_BYTES {
                max_bytes
            } else {
                LEAST_CACHE_BYTES
            },
        }
    }

    /// A cache with the default limit.
    pub fn default_sized() -> (r: ImageCache)
        ensures
            r.valid(),
            r@ == (ImageCacheView {
                entries: Seq::empty(),
                counted: 0,
                most_bytes: DEFAULT_CACHE_BYTES as int,
            }),
            r@.most_bytes == 67_108_864,
    {
        ImageCache::new(DEFAULT_CACHE_BYTES)
    }

    /// The image of this name, which is then the one that was used last.
    pub fn get(&mut self, key: &str) -> (r: Option<&RgbaBitmap>)
        requires
            old(self).valid(),
        ensures
            final(self).valid(),
            final(self)@ == (ImageCacheView {
                entries: used(old(self)@.entries, key@),
                ..old(self)@
            }),
            match r {
                Some(image) => find_key(old(self)@.entries, key@) matches Some(i) && image@
                    == old(self)@.entries[i].1,
                None => find_key(old(self)@.entries, key@) is None,
            },
    {
        proof {
            lemma_used_bytes(self@.entries, key@);
        }
        lru_get(&mut self.cache, key)
    }

    fn recompute_bytes(&mut self)
        requires
            held_bytes(cached(old(self).cache)) <= usize::MAX,
        ensures
            final(self).current_bytes == held_bytes(cached(old(self).cache)),
            final(self).cache == old(self).cache,
            final(self).max_bytes == old(self).max_bytes,
    {
        let sizes: Vec<(u32, u32)> = lru_sizes(&self.cache);
        let ghost entries = cached(self.cache);
        let mut sum: u128 = 0;
        let mut i: usize = sizes.len();
        assert(entries.take(0) =~= Seq::empty());
        while i > 0
            invariant
                i <= sizes@.len(),
                sizes@.len() == entries.len(),
                forall|k: int|
                    0 <= k < sizes@.len() ==> (#[trigger] sizes@[k]) == (
                        entries[entries.len() - 1 - k].1.width,
                        entries[entries.len() - 1 - k].1.height,
                    ),
                sum == held_bytes(entries.take(entries.len() - i)),
                held_bytes(entries) <= usize::MAX,
            decreases i,
        {
            let n: u128 = sizes[i - 1].0 as u128;
            let m: u128 = sizes[i - 1].1 as u128;
            proof {
                let k = entries.len() - i;
                assert(entries.take(k + 1).drop_last() =~= entries.take(k));
                assert(sizes@[i - 1] == (entries[k].1.width, entries[k].1.height));
                lemma_bytes(sizes@[i - 1].0, sizes@[i - 1].1);
                assert(0 <= n * m <= 0x1_0000_0000_0000_0000) by (nonlinear_arith)
                    requires
                        0 <= n <= 0xffff_ffff,
                        0 <= m <= 0xffff_ffff,
                ;
                lemma_prefix_bytes(entries, k + 1);
            }
            sum = sum + n * m * 4;
            i = i - 1;
        }
        assert(entries.take(entries.len() as int) =~= entries);
        self.current_bytes = sum as usize;
    }

    fn drop_oldest(&mut self) -> (r: bool)
        requires
            old(self).valid(),
        ensures
            final(self).valid(),
            r == (old(self)@.entries.len() > 0),
            !r ==> final(self)@ == old(self)@,
            r ==> final(self)@ == (ImageCacheView {
                entries: old(self)@.entries.skip(1),
                counted: held_bytes(old(self)@.entries.skip(1)),
                ..old(self)@
            }),
    {
        let ghost before = self@;
        if !lru_pop(&mut self.cache) {
            return false;
        }
        proof {
            lemma_held_first(before.entries);
            lemma_bytes(before.entries[0].1.width, before.entries[0].1.height);
            lemma_held_nonnegative(before.entries.skip(1));
        }
        self.recompute_bytes();
        true
    }

    /// Puts an image in. Where it does not fit within the limit, those that were not used for longest
    /// go.
    pub fn insert(&mut self, key: String, image: RgbaBitmap)
        requires
            old(self).valid(),
            image@.rgba.len() == image@.bytes(),
        ensures
            final(self).valid(),
            final(self)@ == with_image(old(self)@, key@, image@),
    {
        let bytes: usize = image_bytes(&image);
        let ghost start = self@;
        let ghost view = image@;
        let ghost name = key@;
        proof {
            lemma_bytes(image.width, image.height);
        }
        while self.current_bytes as u128 + bytes as u128 > self.max_bytes as u128
            invariant
                self.valid(),
                bytes == view.bytes(),
                start.most_bytes == self@.most_bytes,
                with_room(start, start.most_bytes, view.bytes()) == with_room(
                    self@,
                    start.most_bytes,
                    view.bytes(),
                ),
            ensures
                self.valid(),
                start.most_bytes == self@.most_bytes,
                self@ == with_room(start, start.most_bytes, view.bytes()),
            decreases self@.entries.len(),
        {
            if !self.drop_oldest() {
                break;
            }
        }
        let ghost roomy = self@;
        proof {
            lemma_with_room(start, start.most_bytes, view.bytes());
            lemma_put_bytes(roomy.entries, name, view, CACHE_ENTRIES as nat);
            lemma_find_key(roomy.entries, name);
        }
        match lru_put(&mut self.cache, key, image) {
            Some(before) => {
                let width: u128 = before.width as u128;
                let height: u128 = before.height as u128;
                proof {
                    assert(0 <= width * height <= 0x1_0000_0000_0000_0000) by (nonlinear_arith)
                        requires
                            0 <= width <= 0xffff_ffff,
                            0 <= height <= 0xffff_ffff,
                    ;
                }
                let gone: usize = (width * height * 4) as usize;
                self.current_bytes = self.current_bytes - gone;
            },
            None => {},
        }
        self.current_bytes = self.current_bytes + bytes;
    }

    /// Puts images in, one after the other.
    pub fn preload(&mut self, images: Vec<(String, RgbaBitmap)>)
        requires
            old(self).valid(),
            forall|i: int|
                0 <= i < images@.len() ==> (#[trigger] images@[i]).1@.rgba.len()
                    == images@[i].1@.bytes(),
        ensures
            final(self).valid(),
            final(self)@ == with_images(old(self)@, image_views(images@)),
    {
        let ghost start = self@;
        let ghost all = images@;
        let ghost views = image_views(images@);
        assert(views.take(0) =~= Seq::empty());
        for image in it: images
            invariant
                it.seq() == all,
                views == image_views(all),
                self.valid(),
                self@ == with_images(start, views.take(it.index() as int)),
                forall|i: int|
                    0 <= i < all.len() ==> (#[trigger] all[i]).1@.rgba.len() == all[i].1@.bytes(),
        {
            let ghost k = it.index() as int;
            assert(image == all[k]);
            assert(views.take(k + 1).drop_last() =~= views.take(k));
            assert(views.take(k + 1).last() == views[k]);
            self.insert(image.0, image.1);
        }
        assert(views.take(views.len() as int) =~= views);
    }

    /// Lets images go, those that were not used for longest first, until `target_bytes` are left.
    pub fn partial_trim(&mut self, target_bytes: usize)
        requires
            old(self).valid(),
        ensures
            final(self).valid(),
            final(self)@ == with_room(old(self)@, target_bytes as int, 0),
    {
        let ghost start = self@;
        while self.current_bytes > target_bytes
            invariant
                self.valid(),
                with_room(start, target_bytes as int, 0) == with_room(
                    self@,
                    target_bytes as int,
                    0,
                ),
            ensures
                self.valid(),
                self@ == with_room(start, target_bytes as int, 0),
            decreases self@.entries.len(),
        {
            if !self.drop_oldest() {
                break;
            }
        }
    }

    /// Lets all images go.
    pub fn clear(&mut self)
        requires
            old(self).valid(),
        ensures
            final(self).valid(),
            final(self)@ == (ImageCacheView {
                entries: Seq::empty(),
                counted: 0,
                ..old(self)@
            }),
    {
        lru_clear(&mut self.cache);
        self.current_bytes = 0;
    }
}

proof fn lemma_prefix_bytes(entries: Seq<CacheEntry>, n: int)
    requires
        0 <= n <= entries.len(),
    ensures
        0 <= held_bytes(entries.take(n)) <= held_bytes(entries),
    decreases entries.len() - n,
{
    lemma_held_nonnegative(entries.take(n));
    if n == entries.len() {
        assert(entries.take(n) =~= entries);
    } else {
        lemma_prefix_bytes(entries, n + 1);
        assert(entries.take(n + 1).drop_last() =~= entries.take(n));
        lemma_bytes(entries[n].1.width, entries[n].1.height);
    }
}

/// The models of a list of images with their names.
pub open spec fn image_views(images: Seq<(String, RgbaBitmap)>) -> Seq<CacheEntry> {
    Seq::new(images.len(), |i: int| (images[i].0@, images[i].1@))
}

/// The cache once images were put in, one after the other.
pub open spec fn with_images(cache: ImageCacheView, images: Seq<CacheEntry>) -> ImageCacheView
    decreases images.len(),
{
    if images.len() == 0 {
        cache
    } else {
        with_image(with_images(cache, images.drop_last()), images.last().0, images.last().1)
    }
}

/// An image that was put in is found, and is the one that was used last.
pub proof fn inserted_images_are_found(cache: ImageCacheView, key: Seq<char>, image: BitmapView)
    requires
        image_cache_valid(cache),
    ensures
        ({
            let after = with_image(cache, key, image);
            let n = after.entries.len() - 1;
            &&& find_key(after.entries, key) == Some(n)
            &&& after.entries[n] == (key, image)
        }),
{
    lemma_bytes(image.width, image.height);
    lemma_with_room(cache, cache.most_bytes, image.bytes());
    let roomy = with_room(cache, cache.most_bytes, image.bytes());
    lemma_put_bytes(roomy.entries, key, image, CACHE_ENTRIES as nat);
}

/// The images in memory have no more bytes than the limit, unless a single one has. A cache that was
/// trimmed holds no more than it was to.
pub proof fn images_stay_within_the_limit(
    cache: ImageCacheView,
    key: Seq<char>,
    image: BitmapView,
    target: int,
)
    requires
        image_cache_valid(cache),
        target >= 0,
    ensures
        ({
            let after = with_image(cache, key, image);
            &&& held_bytes(after.entries) <= after.counted
            &&& after.counted <= cache.most_bytes || after.entries.len() == 1
        }),
        held_bytes(with_room(cache, target, 0).entries) <= target,
{
    lemma_bytes(image.width, image.height);
    lemma_with_room(cache, cache.most_bytes, image.bytes());
    let roomy = with_room(cache, cache.most_bytes, image.bytes());
    lemma_put_bytes(roomy.entries, key, image, CACHE_ENTRIES as nat);
    lemma_with_room(cache, target, 0);
}

/// A picture is modelled by its sides and its pixels, and has four bytes for each pixel.
pub proof fn picture_models_are_faithful(image: RgbaBitmap, images: Seq<(String, RgbaBitmap)>)
    ensures
        image@.width == image.width,
        image@.height == image.height,
        image@.rgba == image.rgba@,
        image@.bytes() == 4 * (image.width * image.height),
        image_views(images).len() == images.len(),
        forall|i: int|
            0 <= i < images.len() ==> (#[trigger] image_views(images)[i]).0 == images[i].0@
                && image_views(images)[i].1 == images[i].1@,
{
    assert(image.width * image.height * 4 == 4 * (image.width * image.height))
        by (nonlinear_arith);
}

/// Of the entries of a name the last is found, and one is found exactly where there is one.
pub proof fn the_last_entry_of_a_name_is_found(entries: Seq<CacheEntry>, key: Seq<char>)
    ensures
        match find_key(entries, key) {
            Some(i) => {
                &&& 0 <= i < entries.len()
                &&& entries[i].0 == key
                &&& forall|j: int| i < j < entries.len() ==> (#[trigger] entries[j]).0 != key
            },
            None => forall|j: int| 0 <= j < entries.len() ==> (#[trigger] entries[j]).0 != key,
        },
    decreases entries.len(),
{
    if entries.len() > 0 {
        let shorter = entries.drop_last();
        the_last_entry_of_a_name_is_found(shorter, key);
        if entries.last().0 != key {
            assert forall|j: int|
                (match find_key(entries, key) {
                    Some(i) => i,
                    None => -1,
                }) < j < entries.len() implies (#[trigger] entries[j]).0 != key by {
                if j < shorter.len() {
                    assert(shorter[j] == entries[j]);
                }
            }
        }
    }
}

/// A picture is shown at the size that is asked for, computed from its own pixels and its own size.
/// Where a side is not known it stays as it is.
pub proof fn pictures_are_shown_at_the_size_asked_for(
    image: BitmapView,
    width: u32,
    height: u32,
)
    ensures
        width == 0 || height == 0 ==> fitted(image, width, height) == Some(image),
        width > 0 && height > 0 ==> match fitted(image, width, height) {
            Some(sized) => {
                &&& sized.width == width
                &&& sized.height == height
                &&& sized.rgba == resized_pixels(
                    image.rgba,
                    image.width,
                    image.height,
                    width,
                    height,
                )
            },
            None => {
                ||| width * height * 4 > isize::MAX
                ||| image.width > 4_194_304 && width > 4_194_304
                ||| image.height > 4_194_304 && height > 4_194_304
                ||| image.width * height * 16 > isize::MAX
                ||| image.height * 16 > isize::MAX
            },
        },
        width * height * 4 > isize::MAX ==> fitted(image, width, height) is None,
        width > 0 && height > 0 && image.width > 0 && image.height > 0 && image.width > 8_388_608
            && width > 4_194_304 && width != image.width ==> fitted(image, width, height) is None,
        width > 0 && height > 0 && image.width > 0 && image.height > 0 && image.height > 8_388_608
            && height > 4_194_304 && height != image.height ==> fitted(image, width, height) is None,
        width > 0 && height > 0 && image.width == width && image.height == height && width * height
            * 4 <= isize::MAX ==> fitted(image, width, height) is Some,
{
    if width == 0 || height == 0 {
        assert(width * height * 4 == 0) by (nonlinear_arith)
            requires
                width == 0 || height == 0,
        ;
    }
}

/// What is shown of a file is the picture in it; a file without one shows nothing.
pub proof fn files_show_the_picture_in_them(bytes: Seq<u8>, width: u32, height: u32)
    ensures
        decoded_image(bytes) is None ==> image_of(bytes, width, height) is None,
        decoded_image(bytes) matches Some((own_width, own_height, rgba)) ==> image_of(
            bytes,
            width,
            height,
        ) == fitted(
            BitmapView { width: own_width, height: own_height, rgba },
            width,
            height,
        ),
        decoded_image(bytes) matches Some((own_width, own_height, rgba)) ==> image_of(bytes, 0, 0)
            == Some(BitmapView { width: own_width, height: own_height, rgba }),
{
}

/// Images go from the one that was not used for longest on, and no more of them than have to: what
/// stays is the end of the list, and one more would have been over the limit.
pub proof fn images_go_from_the_least_used_on(cache: ImageCacheView, limit: int, need: int) -> (n:
    int)
    ensures
        0 <= n <= cache.entries.len(),
        with_room(cache, limit, need).entries == cache.entries.skip(n),
        with_room(cache, limit, need).most_bytes == cache.most_bytes,
        cache.counted + need <= limit ==> n == 0 && with_room(cache, limit, need) == cache,
        cache.counted + need > limit && cache.entries.len() > 0 ==> n > 0,
        n > 0 ==> with_room(cache, limit, need).counted == held_bytes(cache.entries.skip(n)),
        0 < n < cache.entries.len() ==> held_bytes(cache.entries.skip(n)) + need <= limit,
        n > 1 ==> held_bytes(cache.entries.skip(n - 1)) + need > limit,
    decreases cache.entries.len(),
{
    if cache.counted + need > limit && cache.entries.len() > 0 {
        let rest = cache.entries.skip(1);
        let next = ImageCacheView { entries: rest, counted: held_bytes(rest), ..cache };
        let m = images_go_from_the_least_used_on(next, limit, need);
        assert(rest.skip(m) =~= cache.entries.skip(m + 1));
        if m > 0 {
            assert(rest.skip(m - 1) =~= cache.entries.skip(m));
            assert(rest.skip(0) =~= rest);
        } else {
            assert(rest.skip(0) =~= rest);
        }
        m + 1
    } else {
        assert(cache.entries.skip(0) =~= cache.entries);
        0
    }
}

/// The bytes that are held are those of all images together.
pub proof fn held_bytes_add_up(entries: Seq<CacheEntry>, key: Seq<char>, image: BitmapView)
    ensures
        held_bytes(Seq::empty()) == 0,
        held_bytes(entries.push((key, image))) == held_bytes(entries) + 4 * (image.width
            * image.height),
{
    assert(entries.push((key, image)).drop_last() =~= entries);
    assert(image.width * image.height * 4 == 4 * (image.width * image.height))
        by (nonlinear_arith);
}

/// Where there is room, a new image joins the others, and all of them stay as they are. One of a name
/// that is there takes its place and goes to the end; the rest keep their order.
pub proof fn images_that_fit_all_stay(cache: ImageCacheView, key: Seq<char>, image: BitmapView)
    requires
        cache.counted + image.bytes() <= cache.most_bytes,
    ensures
        find_key(cache.entries, key) is None && cache.entries.len() < 256 ==> {
            &&& with_image(cache, key, image).entries == cache.entries.push((key, image))
            &&& with_image(cache, key, image).counted == cache.counted + image.bytes()
        },
        find_key(cache.entries, key) is None && cache.entries.len() >= 256 ==> with_image(
            cache,
            key,
            image,
        ).entries == cache.entries.skip(1).push((key, image)),
        find_key(cache.entries, key) matches Some(i) ==> {
            &&& with_image(cache, key, image).entries == cache.entries.remove(i).push((key, image))
            &&& with_image(cache, key, image).counted == cache.counted
                - cache.entries[i].1.bytes() + image.bytes()
        },
        with_image(cache, key, image).most_bytes == cache.most_bytes,
{
}

/// An image that was used goes to the end, and the rest keep their order. A name that is not there
/// changes nothing.
pub proof fn used_images_go_last(entries: Seq<CacheEntry>, key: Seq<char>)
    ensures
        find_key(entries, key) is None ==> used(entries, key) == entries,
        find_key(entries, key) matches Some(i) ==> {
            &&& used(entries, key).len() == entries.len()
            &&& used(entries, key).last() == entries[i]
            &&& forall|j: int| 0 <= j < i ==> #[trigger] used(entries, key)[j] == entries[j]
            &&& forall|j: int|
                i <= j < entries.len() - 1 ==> #[trigger] used(entries, key)[j] == entries[j + 1]
        },
{
    lemma_find_key(entries, key);
}

/// Images are put in one after the other, the first of a list first.
pub proof fn images_are_put_in_in_order(
    cache: ImageCacheView,
    images: Seq<CacheEntry>,
    next: CacheEntry,
)
    ensures
        with_images(cache, Seq::empty()) == cache,
        with_images(cache, images.push(next)) == with_image(
            with_images(cache, images),
            next.0,
            next.1,
        ),
{
    assert(images.push(next).drop_last() =~= images);
}
} // verus!
