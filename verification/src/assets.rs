use vstd::prelude::*;

verus! {

/// The sound effects the game plays.
#[derive(Clone, Copy, Debug, PartialEq, Eq, Structural)]
pub enum SoundEffect {
    BombExplosion,
    PutBomb,
    PlayerDeath,
    PlayerHurt,
    EnemyHit,
    EnemyDeath,
    BonusPickup,
}

/// The music tracks the game loops in the background.
#[derive(Clone, Copy, Debug, PartialEq, Eq, Structural)]
pub enum BackgroundMusic {
    Menu,
    Game,
    Boss,
}

/// The models and textures a game uses.
#[derive(Clone, Copy, Debug, PartialEq, Eq, Structural)]
pub enum ResourceName {
    Breakable,
    Unbreakable,
    Wall,
    Floor,
    Player,
    Bomb,
    PowerSpeed,
    PowerPower,
    PowerBomb,
    PowerSlide,
    FontAtlas,
}

} // verus!
