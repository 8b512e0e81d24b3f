//! The file-system layout of the local mirror and the user's data, modelled
//! as plain path strings computed from a root directory. Resolving the
//! OS-specific root and creating directories are the caller's work.

use vstd::prelude::*;
use vstd::string::StringExecFns;

verus! {

/// Paths of the persisted reference-data slots and the version marker.
pub struct ExtData {
    pub banlists: String,
    pub cardinfo: String,
    pub cardsets: String,
    pub version: String,
}

/// Paths of the image directories.
pub struct ImagePaths {
    pub cards_big: String,
    pub cards_small: String,
    pub cards_cropped: String,
    pub products: String,
}

/// Paths of user-created data.
pub struct UserPaths {
    pub collections: String,
}

/// All file-system paths the library's data lives under.
pub struct Paths {
    pub ext_data: ExtData,
    pub image_paths: ImagePaths,
    pub user_paths: UserPaths,
}

impl ExtData {
    /// The slot files under the reference-data directory.
    pub fn new(root: String) -> (r: Self)
        ensures
            r.banlists@ == root@ + "/banlists.bin"@,
            r.cardinfo@ == root@ + "/cardinfo.bin"@,
            r.cardsets@ == root@ + "/cardsets.bin"@,
            r.version@ == root@ + "/version.json"@,
    {
        Self {
            banlists: root.clone().concat("/banlists.bin"),
            cardinfo: root.clone().concat("/cardinfo.bin"),
            cardsets: root.clone().concat("/cardsets.bin"),
            version: root.concat("/version.json"),
        }
    }
}

impl ImagePaths {
    /// The image directories under the image root.
    pub fn new(root: String) -> (r: Self)
        ensures
            r.cards_big@ == root@ + "/big"@,
            r.cards_small@ == root@ + "/small"@,
            r.cards_cropped@ == root@ + "/cropped"@,
            r.products@ == root@ + "/products"@,
    {
        Self {
            cards_big: root.clone().concat("/big"),
            cards_small: root.clone().concat("/small"),
            cards_cropped: root.clone().concat("/cropped"),
            products: root.concat("/products"),
        }
    }
}

impl UserPaths {
    /// The user-data directories under the user root.
    pub fn new(root: String) -> (r: Self)
        ensures
            r.collections@ == root@ + "/collections"@,
    {
        Self { collections: root.concat("/collections") }
    }
}

impl Paths {
    /// The whole layout under one data directory.
    pub fn from_data_dir(data_dir: String) -> (r: Self)
        ensures
            r.ext_data.banlists@ == data_dir@ + "/external"@ + "/banlists.bin"@,
            r.ext_data.cardinfo@ == data_dir@ + "/external"@ + "/cardinfo.bin"@,
            r.ext_data.cardsets@ == data_dir@ + "/external"@ + "/cardsets.bin"@,
            r.ext_data.version@ == data_dir@ + "/external"@ + "/version.json"@,
            r.image_paths.cards_big@ == data_dir@ + "/images"@ + "/big"@,
            r.image_paths.cards_small@ == data_dir@ + "/images"@ + "/small"@,
            r.image_paths.cards_cropped@ == data_dir@ + "/images"@ + "/cropped"@,
            r.image_paths.products@ == data_dir@ + "/images"@ + "/products"@,
            r.user_paths.collections@ == data_dir@ + "/user"@ + "/collections"@,
    {
        Self {
            ext_data: ExtData::new(data_dir.clone().concat("/external")),
            image_paths: ImagePaths::new(data_dir.clone().concat("/images")),
            user_paths: UserPaths::new(data_dir.concat("/user")),
        }
    }

    /// The directory card images are read from.
    pub fn get_img_dir(&self) -> (r: &String)
        ensures
            r@ == self.image_paths.cards_big@,
    {
        &self.image_paths.cards_big
    }
}

} // verus!
