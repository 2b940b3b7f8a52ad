//! The application configuration and the filesystem path resolver.
//!
//! Every category stores its collection document, its set catalog cache and
//! its image files under `<storage_root>/<category>/`. The resolver derives
//! those paths; reading and writing the files is the caller's business.

use vstd::prelude::*;

verus! {

use crate::enums::Game;

/// The application configuration: where collection data lives, and which
/// category the application starts with.
pub struct Configuration {
    /// Absolute path of the directory all collection data is stored under.
    pub data_storage: String,
    /// The category the application starts with.
    pub default_game: Game,
}

impl Configuration {
    /// A configuration rooted at `data_storage`, starting with `default_game`.
    pub fn new(data_storage: String, default_game: Game) -> (r: Configuration)
        ensures
            r.data_storage == data_storage,
            r.default_game == default_game,
    {
        Configuration { data_storage, default_game }
    }

    /// The directory holding one category's data.
    pub fn game_dir(&self, game: &str) -> (r: String)
        ensures
            r@ == self.data_storage@ + "/"@ + game@,
    {
        let mut p = self.data_storage.clone();
        p.append("/");
        p.append(game);
        p
    }

    /// The file under which one category's collection document is persisted.
    pub fn collection_file(&self, game: &str) -> (r: String)
        ensures
            r@ == self.data_storage@ + "/"@ + game@ + "/"@ + "collection.json"@,
    {
        let mut p = self.game_dir(game);
        p.append("/");
        p.append("collection.json");
        p
    }

    /// The file under which one category's set catalog cache is persisted.
    pub fn sets_file(&self, game: &str) -> (r: String)
        ensures
            r@ == self.data_storage@ + "/"@ + game@ + "/"@ + "sets.json"@,
    {
        let mut p = self.game_dir(game);
        p.append("/");
        p.append("sets.json");
        p
    }

    /// The directory holding one category's image files.
    pub fn image_dir(&self, game: &str) -> (r: String)
        ensures
            r@ == self.data_storage@ + "/"@ + game@ + "/"@ + "images"@,
    {
        let mut p = self.game_dir(game);
        p.append("/");
        p.append("images");
        p
    }

    /// The path of one image file of a category.
    pub fn image_file(&self, game: &str, image: &str) -> (r: String)
        ensures
            r@ == self.data_storage@ + "/"@ + game@ + "/"@ + "images"@ + "/"@ + image@,
    {
        let mut p = self.image_dir(game);
        p.append("/");
        p.append(image);
        p
    }
}

} // verus!
