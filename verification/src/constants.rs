use vstd::prelude::*;

verus! {

/// Every industry and structure a colony can build.
#[derive(Debug, Clone, Copy, PartialEq, Eq, Hash, Structural)]
pub enum FacilityType {
    Population,
    Spaceport,
    Megaport,
    Farming,
    Aquaculture,
    Mining,
    TechMining,
    Refining,
    LightIndustry,
    HeavyIndustry,
    OrbitalWorks,
    FuelProduction,
    Commerce,
    MilitaryBase,
    HighCommand,
    PatrolHq,
    Waystation,
    Cryosanctum,
    GroundDefenses,
    HeavyBatteries,
    PlanetaryShield,
    OrbitalStation,
    BattleStation,
    StarFortress,
    CryorevivalFacility,
}

/// The position of a facility type in the declaration order above.
pub open spec fn facility_code(f: FacilityType) -> u64 {
    match f {
        FacilityType::Population => 0,
        FacilityType::Spaceport => 1,
        FacilityType::Megaport => 2,
        FacilityType::Farming => 3,
        FacilityType::Aquaculture => 4,
        FacilityType::Mining => 5,
        FacilityType::TechMining => 6,
        FacilityType::Refining => 7,
        FacilityType::LightIndustry => 8,
        FacilityType::HeavyIndustry => 9,
        FacilityType::OrbitalWorks => 10,
        FacilityType::FuelProduction => 11,
        FacilityType::Commerce => 12,
        FacilityType::MilitaryBase => 13,
        FacilityType::HighCommand => 14,
        FacilityType::PatrolHq => 15,
        FacilityType::Waystation => 16,
        FacilityType::Cryosanctum => 17,
        FacilityType::GroundDefenses => 18,
        FacilityType::HeavyBatteries => 19,
        FacilityType::PlanetaryShield => 20,
        FacilityType::OrbitalStation => 21,
        FacilityType::BattleStation => 22,
        FacilityType::StarFortress => 23,
        FacilityType::CryorevivalFacility => 24,
    }
}

/// The lower-case in-game name of a facility type.
pub open spec fn facility_name(f: FacilityType) -> Seq<char> {
    match f {
        FacilityType::Population => "population & infrastructure"@,
        FacilityType::Spaceport => "spaceport"@,
        FacilityType::Megaport => "megaport"@,
        FacilityType::Farming => "farming"@,
        FacilityType::Aquaculture => "aquaculture"@,
        FacilityType::Mining => "mining"@,
        FacilityType::TechMining => "tech-mining"@,
        FacilityType::Refining => "refining"@,
        FacilityType::LightIndustry => "light industry"@,
        FacilityType::HeavyIndustry => "heavy industry"@,
        FacilityType::OrbitalWorks => "orbital works"@,
        FacilityType::FuelProduction => "fuel production"@,
        FacilityType::Commerce => "commerce"@,
        FacilityType::MilitaryBase => "military base"@,
        FacilityType::HighCommand => "high command"@,
        FacilityType::PatrolHq => "patrol hq"@,
        FacilityType::Waystation => "waystation"@,
        FacilityType::Cryosanctum => "cryosanctum"@,
        FacilityType::GroundDefenses => "ground defenses"@,
        FacilityType::HeavyBatteries => "heavy batteries"@,
        FacilityType::PlanetaryShield => "planetary shield"@,
        FacilityType::OrbitalStation => "orbital station"@,
        FacilityType::BattleStation => "battle station"@,
        FacilityType::StarFortress => "star fortress"@,
        FacilityType::CryorevivalFacility => "cryorevival facility"@,
    }
}

/// Facilities whose data carries an income multiplier above one.
pub open spec fn facility_multiplies_income(f: FacilityType) -> bool {
    f == FacilityType::Commerce
}

impl FacilityType {
    /// The facility's numeric code, used when hashing actions.
    pub fn code(self) -> (c: u64)
        ensures
            c == facility_code(self),
            c < 25,
    {
        match self {
            FacilityType::Population => 0,
            FacilityType::Spaceport => 1,
            FacilityType::Megaport => 2,
            FacilityType::Farming => 3,
            FacilityType::Aquaculture => 4,
            FacilityType::Mining => 5,
            FacilityType::TechMining => 6,
            FacilityType::Refining => 7,
            FacilityType::LightIndustry => 8,
            FacilityType::HeavyIndustry => 9,
            FacilityType::OrbitalWorks => 10,
            FacilityType::FuelProduction => 11,
            FacilityType::Commerce => 12,
            FacilityType::MilitaryBase => 13,
            FacilityType::HighCommand => 14,
            FacilityType::PatrolHq => 15,
            FacilityType::Waystation => 16,
            FacilityType::Cryosanctum => 17,
            FacilityType::GroundDefenses => 18,
            FacilityType::HeavyBatteries => 19,
            FacilityType::PlanetaryShield => 20,
            FacilityType::OrbitalStation => 21,
            FacilityType::BattleStation => 22,
            FacilityType::StarFortress => 23,
            FacilityType::CryorevivalFacility => 24,
        }
    }

    /// The lower-case in-game name.
    pub fn as_str(self) -> (s: &'static str)
        ensures
            s@ == facility_name(self),
    {
        match self {
            FacilityType::Population => "population & infrastructure",
            FacilityType::Spaceport => "spaceport",
            FacilityType::Megaport => "megaport",
            FacilityType::Farming => "farming",
            FacilityType::Aquaculture => "aquaculture",
            FacilityType::Mining => "mining",
            FacilityType::TechMining => "tech-mining",
            FacilityType::Refining => "refining",
            FacilityType::LightIndustry => "light industry",
            FacilityType::HeavyIndustry => "heavy industry",
            FacilityType::OrbitalWorks => "orbital works",
            FacilityType::FuelProduction => "fuel production",
            FacilityType::Commerce => "commerce",
            FacilityType::MilitaryBase => "military base",
            FacilityType::HighCommand => "high command",
            FacilityType::PatrolHq => "patrol hq",
            FacilityType::Waystation => "waystation",
            FacilityType::Cryosanctum => "cryosanctum",
            FacilityType::GroundDefenses => "ground defenses",
            FacilityType::HeavyBatteries => "heavy batteries",
            FacilityType::PlanetaryShield => "planetary shield",
            FacilityType::OrbitalStation => "orbital station",
            FacilityType::BattleStation => "battle station",
            FacilityType::StarFortress => "star fortress",
            FacilityType::CryorevivalFacility => "cryorevival facility",
        }
    }

    /// Whether the facility multiplies the colony's income.
    pub fn multiplies_income(self) -> (b: bool)
        ensures
            b == facility_multiplies_income(self),
    {
        match self {
            FacilityType::Commerce => true,
            _ => false,
        }
    }
}

/// The lower tiers an upgraded facility is built from, lowest first.
pub open spec fn facility_predecessors(f: FacilityType) -> Seq<FacilityType> {
    match f {
        FacilityType::Megaport => seq![FacilityType::Spaceport],
        FacilityType::OrbitalWorks => seq![FacilityType::HeavyIndustry],
        FacilityType::MilitaryBase => seq![FacilityType::PatrolHq],
        FacilityType::HighCommand => seq![FacilityType::PatrolHq, FacilityType::MilitaryBase],
        FacilityType::HeavyBatteries => seq![FacilityType::GroundDefenses],
        FacilityType::BattleStation => seq![FacilityType::OrbitalStation],
        FacilityType::StarFortress => seq![FacilityType::OrbitalStation, FacilityType::BattleStation],
        _ => seq![],
    }
}

/// The lower tiers of the upgrade chain that ends in `f`, lowest first;
/// empty for a facility that upgrades nothing.
pub fn upgrade_predecessors(f: FacilityType) -> (r: &'static [FacilityType])
    ensures
        r@ == facility_predecessors(f),
{
    match f {
        FacilityType::Megaport => &[FacilityType::Spaceport],
        FacilityType::OrbitalWorks => &[FacilityType::HeavyIndustry],
        FacilityType::MilitaryBase => &[FacilityType::PatrolHq],
        FacilityType::HighCommand => &[FacilityType::PatrolHq, FacilityType::MilitaryBase],
        FacilityType::HeavyBatteries => &[FacilityType::GroundDefenses],
        FacilityType::BattleStation => &[FacilityType::OrbitalStation],
        FacilityType::StarFortress => &[FacilityType::OrbitalStation, FacilityType::BattleStation],
        _ => &[],
    }
}

/// Special items that can be installed in a facility.
#[derive(Debug, Clone, Copy, PartialEq, Eq, Hash, Structural)]
pub enum ColonyItem {
    CorruptedNanoforge,
    PristineNanoforge,
    SynchrotronCore,
    OrbitalFusionLamp,
    MantleBore,
    CatalyticCore,
    SoilNanites,
    BiofactoryEmbryo,
    FullereneSpool,
    PlasmaDynamo,
    CryoarithmeticEngine,
    DroneReplicator,
    DealmakerHolosuite,
    CoronalPortal,
}

/// The position of a colony item in the declaration order above.
pub open spec fn item_code(i: ColonyItem) -> u64 {
    match i {
        ColonyItem::CorruptedNanoforge => 0,
        ColonyItem::PristineNanoforge => 1,
        ColonyItem::SynchrotronCore => 2,
        ColonyItem::OrbitalFusionLamp => 3,
        ColonyItem::MantleBore => 4,
        ColonyItem::CatalyticCore => 5,
        ColonyItem::SoilNanites => 6,
        ColonyItem::BiofactoryEmbryo => 7,
        ColonyItem::FullereneSpool => 8,
        ColonyItem::PlasmaDynamo => 9,
        ColonyItem::CryoarithmeticEngine => 10,
        ColonyItem::DroneReplicator => 11,
        ColonyItem::DealmakerHolosuite => 12,
        ColonyItem::CoronalPortal => 13,
    }
}

/// The lower-case in-game name of a colony item.
pub open spec fn item_name(i: ColonyItem) -> Seq<char> {
    match i {
        ColonyItem::CorruptedNanoforge => "corrupted nanoforge"@,
        ColonyItem::PristineNanoforge => "pristine nanoforge"@,
        ColonyItem::SynchrotronCore => "synchrotron core"@,
        ColonyItem::OrbitalFusionLamp => "orbital fusion lamp"@,
        ColonyItem::MantleBore => "mantle bore"@,
        ColonyItem::CatalyticCore => "catalytic core"@,
        ColonyItem::SoilNanites => "soil nanites"@,
        ColonyItem::BiofactoryEmbryo => "biofactory embryo"@,
        ColonyItem::FullereneSpool => "fullerene spool"@,
        ColonyItem::PlasmaDynamo => "plasma dynamo"@,
        ColonyItem::CryoarithmeticEngine => "cryoarithmetic engine"@,
        ColonyItem::DroneReplicator => "drone replicator"@,
        ColonyItem::DealmakerHolosuite => "dealmaker holosuite"@,
        ColonyItem::CoronalPortal => "coronal portal"@,
    }
}

impl ColonyItem {
    /// The item's numeric code, used when hashing actions.
    pub fn code(self) -> (c: u64)
        ensures
            c == item_code(self),
            c < 14,
    {
        match self {
            ColonyItem::CorruptedNanoforge => 0,
            ColonyItem::PristineNanoforge => 1,
            ColonyItem::SynchrotronCore => 2,
            ColonyItem::OrbitalFusionLamp => 3,
            ColonyItem::MantleBore => 4,
            ColonyItem::CatalyticCore => 5,
            ColonyItem::SoilNanites => 6,
            ColonyItem::BiofactoryEmbryo => 7,
            ColonyItem::FullereneSpool => 8,
            ColonyItem::PlasmaDynamo => 9,
            ColonyItem::CryoarithmeticEngine => 10,
            ColonyItem::DroneReplicator => 11,
            ColonyItem::DealmakerHolosuite => 12,
            ColonyItem::CoronalPortal => 13,
        }
    }

    /// The lower-case in-game name.
    pub fn name(self) -> (s: &'static str)
        ensures
            s@ == item_name(self),
    {
        match self {
            ColonyItem::CorruptedNanoforge => "corrupted nanoforge",
            ColonyItem::PristineNanoforge => "pristine nanoforge",
            ColonyItem::SynchrotronCore => "synchrotron core",
            ColonyItem::OrbitalFusionLamp => "orbital fusion lamp",
            ColonyItem::MantleBore => "mantle bore",
            ColonyItem::CatalyticCore => "catalytic core",
            ColonyItem::SoilNanites => "soil nanites",
            ColonyItem::BiofactoryEmbryo => "biofactory embryo",
            ColonyItem::FullereneSpool => "fullerene spool",
            ColonyItem::PlasmaDynamo => "plasma dynamo",
            ColonyItem::CryoarithmeticEngine => "cryoarithmetic engine",
            ColonyItem::DroneReplicator => "drone replicator",
            ColonyItem::DealmakerHolosuite => "dealmaker holosuite",
            ColonyItem::CoronalPortal => "coronal portal",
        }
    }
}

} // verus!
