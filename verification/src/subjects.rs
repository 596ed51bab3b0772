//! Bus subjects, the streams that carry them, and the subject of each event kind.

use vstd::prelude::*;

verus! {

pub const CANONICAL_STREAM: &'static str = "HL_CANONICAL";

pub const STATE_STREAM: &'static str = "HL_STATE";

pub const FEATURE_STREAM: &'static str = "HL_FEATURE";

pub const SIGNAL_STREAM: &'static str = "HL_SIGNAL";

pub const HEALTH_STREAM: &'static str = "HL_HEALTH";

pub const DEAD_LETTER_STREAM: &'static str = "HL_DEADLETTER";

#[derive(Debug, Clone, Copy, PartialEq, Eq, Structural, PartialOrd, Ord, Hash)]
pub enum Subject {
    BlockCommitted,
    BlockProvisional,
    EventFill,
    EventOrder,
    EventLedger,
    EventMarketMeta,
    EventOracle,
    SnapshotAccount,
    SnapshotMarket,
    SnapshotEcosystem,
    StateAccountDelta,
    StateBookDelta,
    FeatureWallet,
    FeatureEntity,
    FeatureMarket,
    SignalCandidate,
    SignalLive,
    SignalResolved,
    HealthData,
    HealthSource,
    HealthModel,
}

impl Subject {
    pub open spec fn name(self) -> Seq<char> {
        match self {
            Subject::BlockCommitted => "hl.v1.block.committed"@,
            Subject::BlockProvisional => "hl.v1.block.provisional"@,
            Subject::EventFill => "hl.v1.event.fill"@,
            Subject::EventOrder => "hl.v1.event.order"@,
            Subject::EventLedger => "hl.v1.event.ledger"@,
            Subject::EventMarketMeta => "hl.v1.event.market_meta"@,
            Subject::EventOracle => "hl.v1.event.oracle"@,
            Subject::SnapshotAccount => "hl.v1.snapshot.account"@,
            Subject::SnapshotMarket => "hl.v1.snapshot.market"@,
            Subject::SnapshotEcosystem => "hl.v1.snapshot.ecosystem"@,
            Subject::StateAccountDelta => "hl.v1.state.account_delta"@,
            Subject::StateBookDelta => "hl.v1.state.book_delta"@,
            Subject::FeatureWallet => "hl.v1.feature.wallet"@,
            Subject::FeatureEntity => "hl.v1.feature.entity"@,
            Subject::FeatureMarket => "hl.v1.feature.market"@,
            Subject::SignalCandidate => "hl.v1.signal.candidate"@,
            Subject::SignalLive => "hl.v1.signal.live"@,
            Subject::SignalResolved => "hl.v1.signal.resolved"@,
            Subject::HealthData => "hl.v1.health.data"@,
            Subject::HealthSource => "hl.v1.health.source"@,
            Subject::HealthModel => "hl.v1.health.model"@,
        }
    }

    pub open spec fn stream_name(self) -> Seq<char> {
        match self {
            Subject::BlockCommitted => "HL_CANONICAL"@,
            Subject::BlockProvisional => "HL_CANONICAL"@,
            Subject::EventFill => "HL_CANONICAL"@,
            Subject::EventOrder => "HL_CANONICAL"@,
            Subject::EventLedger => "HL_CANONICAL"@,
            Subject::EventMarketMeta => "HL_CANONICAL"@,
            Subject::EventOracle => "HL_CANONICAL"@,
            Subject::SnapshotAccount => "HL_CANONICAL"@,
            Subject::SnapshotMarket => "HL_CANONICAL"@,
            Subject::SnapshotEcosystem => "HL_CANONICAL"@,
            Subject::StateAccountDelta => "HL_STATE"@,
            Subject::StateBookDelta => "HL_STATE"@,
            Subject::FeatureWallet => "HL_FEATURE"@,
            Subject::FeatureEntity => "HL_FEATURE"@,
            Subject::FeatureMarket => "HL_FEATURE"@,
            Subject::SignalCandidate => "HL_SIGNAL"@,
            Subject::SignalLive => "HL_SIGNAL"@,
            Subject::SignalResolved => "HL_SIGNAL"@,
            Subject::HealthData => "HL_HEALTH"@,
            Subject::HealthSource => "HL_HEALTH"@,
            Subject::HealthModel => "HL_HEALTH"@,
        }
    }

    /// Every subject, in declaration order.
    pub fn all() -> (r: Vec<Subject>)
        ensures
            r@.len() == 21,
            forall|s: Subject| r@.contains(s),
    {
        let r = vec![
            Subject::BlockCommitted,
            Subject::BlockProvisional,
            Subject::EventFill,
            Subject::EventOrder,
            Subject::EventLedger,
            Subject::EventMarketMeta,
            Subject::EventOracle,
            Subject::SnapshotAccount,
            Subject::SnapshotMarket,
            Subject::SnapshotEcosystem,
            Subject::StateAccountDelta,
            Subject::StateBookDelta,
            Subject::FeatureWallet,
            Subject::FeatureEntity,
            Subject::FeatureMarket,
            Subject::SignalCandidate,
            Subject::SignalLive,
            Subject::SignalResolved,
            Subject::HealthData,
            Subject::HealthSource,
            Subject::HealthModel,
        ];
        proof {
            assert forall|s: Subject| r@.contains(s) by {
                match s {
                    Subject::BlockCommitted => assert(r@[0] == s),
                    Subject::BlockProvisional => assert(r@[1] == s),
                    Subject::EventFill => assert(r@[2] == s),
                    Subject::EventOrder => assert(r@[3] == s),
                    Subject::EventLedger => assert(r@[4] == s),
                    Subject::EventMarketMeta => assert(r@[5] == s),
                    Subject::EventOracle => assert(r@[6] == s),
                    Subject::SnapshotAccount => assert(r@[7] == s),
                    Subject::SnapshotMarket => assert(r@[8] == s),
                    Subject::SnapshotEcosystem => assert(r@[9] == s),
                    Subject::StateAccountDelta => assert(r@[10] == s),
                    Subject::StateBookDelta => assert(r@[11] == s),
                    Subject::FeatureWallet => assert(r@[12] == s),
                    Subject::FeatureEntity => assert(r@[13] == s),
                    Subject::FeatureMarket => assert(r@[14] == s),
                    Subject::SignalCandidate => assert(r@[15] == s),
                    Subject::SignalLive => assert(r@[16] == s),
                    Subject::SignalResolved => assert(r@[17] == s),
                    Subject::HealthData => assert(r@[18] == s),
                    Subject::HealthSource => assert(r@[19] == s),
                    Subject::HealthModel => assert(r@[20] == s),
                }
            }
        }
        r
    }

    /// The wire subject.
    pub fn as_str(self) -> (r: &'static str)
        ensures
            r@ == self.name(),
    {
        match self {
            Subject::BlockCommitted => "hl.v1.block.committed",
            Subject::BlockProvisional => "hl.v1.block.provisional",
            Subject::EventFill => "hl.v1.event.fill",
            Subject::EventOrder => "hl.v1.event.order",
            Subject::EventLedger => "hl.v1.event.ledger",
            Subject::EventMarketMeta => "hl.v1.event.market_meta",
            Subject::EventOracle => "hl.v1.event.oracle",
            Subject::SnapshotAccount => "hl.v1.snapshot.account",
            Subject::SnapshotMarket => "hl.v1.snapshot.market",
            Subject::SnapshotEcosystem => "hl.v1.snapshot.ecosystem",
            Subject::StateAccountDelta => "hl.v1.state.account_delta",
            Subject::StateBookDelta => "hl.v1.state.book_delta",
            Subject::FeatureWallet => "hl.v1.feature.wallet",
            Subject::FeatureEntity => "hl.v1.feature.entity",
            Subject::FeatureMarket => "hl.v1.feature.market",
            Subject::SignalCandidate => "hl.v1.signal.candidate",
            Subject::SignalLive => "hl.v1.signal.live",
            Subject::SignalResolved => "hl.v1.signal.resolved",
            Subject::HealthData => "hl.v1.health.data",
            Subject::HealthSource => "hl.v1.health.source",
            Subject::HealthModel => "hl.v1.health.model",
        }
    }

    /// The JetStream stream that stores the subject.
    pub fn stream(self) -> (r: &'static str)
        ensures
            r@ == self.stream_name(),
    {
        match self {
            Subject::BlockCommitted => "HL_CANONICAL",
            Subject::BlockProvisional => "HL_CANONICAL",
            Subject::EventFill => "HL_CANONICAL",
            Subject::EventOrder => "HL_CANONICAL",
            Subject::EventLedger => "HL_CANONICAL",
            Subject::EventMarketMeta => "HL_CANONICAL",
            Subject::EventOracle => "HL_CANONICAL",
            Subject::SnapshotAccount => "HL_CANONICAL",
            Subject::SnapshotMarket => "HL_CANONICAL",
            Subject::SnapshotEcosystem => "HL_CANONICAL",
            Subject::StateAccountDelta => "HL_STATE",
            Subject::StateBookDelta => "HL_STATE",
            Subject::FeatureWallet => "HL_FEATURE",
            Subject::FeatureEntity => "HL_FEATURE",
            Subject::FeatureMarket => "HL_FEATURE",
            Subject::SignalCandidate => "HL_SIGNAL",
            Subject::SignalLive => "HL_SIGNAL",
            Subject::SignalResolved => "HL_SIGNAL",
            Subject::HealthData => "HL_HEALTH",
            Subject::HealthSource => "HL_HEALTH",
            Subject::HealthModel => "HL_HEALTH",
        }
    }
}

/// Kind of a canonical event.
#[derive(Debug, Clone, Copy, PartialEq, Eq, Structural)]
pub enum EventKind {
    OrderPartiallyFilled,
    OrderFilled,
    TwapSliceFilled,
    TradeMatched,
    LiquidationFill,
    BackstopLiquidation,
    OrderAccepted,
    OrderRested,
    OrderModified,
    OrderCancelled,
    OrderRejected,
    TriggerOrderActivated,
    TwapStarted,
    TwapCompleted,
    OracleUpdated,
    FundingRateUpdated,
    MarketHalted,
    MarketResumed,
    OpenInterestCapChanged,
    MarginTableChanged,
    MarketCreated,
    MarketMetadataChanged,
    AssetContextUpdated,
    DexCreated,
    OutcomeCreated,
    OutcomeResolved,
    DepositCredited,
    WithdrawalDebited,
    SpotTransfer,
    PerpTransfer,
    SubaccountTransfer,
    VaultDeposit,
    VaultWithdrawal,
    FeeCharged,
    BuilderFeeCharged,
    FundingPaid,
    FundingReceived,
    ReferralReward,
    AccountModeChanged,
    MarginModeChanged,
    LeverageChanged,
    LiquidationStarted,
    PositionSettled,
}

pub open spec fn event_subject(kind: EventKind) -> Subject {
    match kind {
        EventKind::OrderPartiallyFilled => Subject::EventFill,
        EventKind::OrderFilled => Subject::EventFill,
        EventKind::TwapSliceFilled => Subject::EventFill,
        EventKind::TradeMatched => Subject::EventFill,
        EventKind::LiquidationFill => Subject::EventFill,
        EventKind::BackstopLiquidation => Subject::EventFill,
        EventKind::OrderAccepted => Subject::EventOrder,
        EventKind::OrderRested => Subject::EventOrder,
        EventKind::OrderModified => Subject::EventOrder,
        EventKind::OrderCancelled => Subject::EventOrder,
        EventKind::OrderRejected => Subject::EventOrder,
        EventKind::TriggerOrderActivated => Subject::EventOrder,
        EventKind::TwapStarted => Subject::EventOrder,
        EventKind::TwapCompleted => Subject::EventOrder,
        EventKind::OracleUpdated => Subject::EventOracle,
        EventKind::FundingRateUpdated => Subject::EventOracle,
        EventKind::MarketHalted => Subject::EventMarketMeta,
        EventKind::MarketResumed => Subject::EventMarketMeta,
        EventKind::OpenInterestCapChanged => Subject::EventMarketMeta,
        EventKind::MarginTableChanged => Subject::EventMarketMeta,
        EventKind::MarketCreated => Subject::EventMarketMeta,
        EventKind::MarketMetadataChanged => Subject::EventMarketMeta,
        EventKind::AssetContextUpdated => Subject::EventMarketMeta,
        EventKind::DexCreated => Subject::EventMarketMeta,
        EventKind::OutcomeCreated => Subject::EventMarketMeta,
        EventKind::OutcomeResolved => Subject::EventMarketMeta,
        EventKind::DepositCredited => Subject::EventLedger,
        EventKind::WithdrawalDebited => Subject::EventLedger,
        EventKind::SpotTransfer => Subject::EventLedger,
        EventKind::PerpTransfer => Subject::EventLedger,
        EventKind::SubaccountTransfer => Subject::EventLedger,
        EventKind::VaultDeposit => Subject::EventLedger,
        EventKind::VaultWithdrawal => Subject::EventLedger,
        EventKind::FeeCharged => Subject::EventLedger,
        EventKind::BuilderFeeCharged => Subject::EventLedger,
        EventKind::FundingPaid => Subject::EventLedger,
        EventKind::FundingReceived => Subject::EventLedger,
        EventKind::ReferralReward => Subject::EventLedger,
        EventKind::AccountModeChanged => Subject::EventLedger,
        EventKind::MarginModeChanged => Subject::EventLedger,
        EventKind::LeverageChanged => Subject::EventLedger,
        EventKind::LiquidationStarted => Subject::EventLedger,
        EventKind::PositionSettled => Subject::EventLedger,
    }
}

/// The subject that publishes events of `kind`: fills, orders, oracle, market metadata or
/// ledger.
pub fn subject_for_event_kind(kind: EventKind) -> (r: Subject)
    ensures
        r == event_subject(kind),
{
    match kind {
        EventKind::OrderPartiallyFilled => Subject::EventFill,
        EventKind::OrderFilled => Subject::EventFill,
        EventKind::TwapSliceFilled => Subject::EventFill,
        EventKind::TradeMatched => Subject::EventFill,
        EventKind::LiquidationFill => Subject::EventFill,
        EventKind::BackstopLiquidation => Subject::EventFill,
        EventKind::OrderAccepted => Subject::EventOrder,
        EventKind::OrderRested => Subject::EventOrder,
        EventKind::OrderModified => Subject::EventOrder,
        EventKind::OrderCancelled => Subject::EventOrder,
        EventKind::OrderRejected => Subject::EventOrder,
        EventKind::TriggerOrderActivated => Subject::EventOrder,
        EventKind::TwapStarted => Subject::EventOrder,
        EventKind::TwapCompleted => Subject::EventOrder,
        EventKind::OracleUpdated => Subject::EventOracle,
        EventKind::FundingRateUpdated => Subject::EventOracle,
        EventKind::MarketHalted => Subject::EventMarketMeta,
        EventKind::MarketResumed => Subject::EventMarketMeta,
        EventKind::OpenInterestCapChanged => Subject::EventMarketMeta,
        EventKind::MarginTableChanged => Subject::EventMarketMeta,
        EventKind::MarketCreated => Subject::EventMarketMeta,
        EventKind::MarketMetadataChanged => Subject::EventMarketMeta,
        EventKind::AssetContextUpdated => Subject::EventMarketMeta,
        EventKind::DexCreated => Subject::EventMarketMeta,
        EventKind::OutcomeCreated => Subject::EventMarketMeta,
        EventKind::OutcomeResolved => Subject::EventMarketMeta,
        EventKind::DepositCredited => Subject::EventLedger,
        EventKind::WithdrawalDebited => Subject::EventLedger,
        EventKind::SpotTransfer => Subject::EventLedger,
        EventKind::PerpTransfer => Subject::EventLedger,
        EventKind::SubaccountTransfer => Subject::EventLedger,
        EventKind::VaultDeposit => Subject::EventLedger,
        EventKind::VaultWithdrawal => Subject::EventLedger,
        EventKind::FeeCharged => Subject::EventLedger,
        EventKind::BuilderFeeCharged => Subject::EventLedger,
        EventKind::FundingPaid => Subject::EventLedger,
        EventKind::FundingReceived => Subject::EventLedger,
        EventKind::ReferralReward => Subject::EventLedger,
        EventKind::AccountModeChanged => Subject::EventLedger,
        EventKind::MarginModeChanged => Subject::EventLedger,
        EventKind::LeverageChanged => Subject::EventLedger,
        EventKind::LiquidationStarted => Subject::EventLedger,
        EventKind::PositionSettled => Subject::EventLedger,
    }
}

/// Every event is published on the canonical stream.
pub proof fn law_events_stay_canonical(kind: EventKind)
    ensures
        event_subject(kind).stream_name() == CANONICAL_STREAM@,
{
}

} // verus!
