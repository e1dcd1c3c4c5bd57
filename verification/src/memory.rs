pub mod episodic;
pub mod factual;
pub mod semantic;
pub mod working;
